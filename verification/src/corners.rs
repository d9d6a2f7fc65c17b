//! The eight corner cubies: where they sit, how they are twisted, and the
//! coordinates that are read off them.

use vstd::prelude::*;
use crate::cubies::{
    complete, complete_from, CubieState, greater_before, inversions, lemma_add_multiple,
    lemma_add_reduced, lemma_complete, lemma_pigeonhole, lemma_slots_of, slots_from, slots_of,
};
use crate::face::Face;
use crate::moves::{CubeMove, Move};
use crate::ranking::{
    arrangement_rank, arrangement_rank_of, arrangement_unrank, arrangement_unrank_of, as_ints,
    is_arrangement, lemma_factorials, lemma_pascal_rows, lemma_unrank_then_rank,
};

verus! {

/// The number of twist coordinates: `3^7`.
pub const NB_TWIST: usize = 2187;

/// The number of coordinates of the six corners URF to DLF: `8! / 2`.
pub const NB_URF_TO_DLF: usize = 20160;

/// The number of parities.
pub const NB_PARITY: usize = 2;

/// A corner cubie, named by its three faces in clockwise order; as a position,
/// the place where that cubie sits in the solved cube.
#[derive(Clone, Copy, Debug, PartialEq, Eq, Hash, Structural)]
pub enum Corner {
    URF,
    UFL,
    ULB,
    UBR,
    DFR,
    DLF,
    DBL,
    DRB,
}

impl Corner {
    /// The number of the cubie, from 0 for URF to 7 for DRB.
    pub open spec fn number(self) -> int {
        match self {
            Corner::URF => 0,
            Corner::UFL => 1,
            Corner::ULB => 2,
            Corner::UBR => 3,
            Corner::DFR => 4,
            Corner::DLF => 5,
            Corner::DBL => 6,
            Corner::DRB => 7,
        }
    }

    /// The cubie with the given number.
    pub open spec fn of_number(i: int) -> Corner {
        if i == 0 {
            Corner::URF
        } else if i == 1 {
            Corner::UFL
        } else if i == 2 {
            Corner::ULB
        } else if i == 3 {
            Corner::UBR
        } else if i == 4 {
            Corner::DFR
        } else if i == 5 {
            Corner::DLF
        } else if i == 6 {
            Corner::DBL
        } else {
            Corner::DRB
        }
    }

    /// The number of the cubie.
    pub fn index(&self) -> (i: u8)
        ensures
            i == self.number(),
            i < 8,
            Corner::of_number(i as int) == *self,
    {
        match *self {
            Corner::URF => 0,
            Corner::UFL => 1,
            Corner::ULB => 2,
            Corner::UBR => 3,
            Corner::DFR => 4,
            Corner::DLF => 5,
            Corner::DBL => 6,
            Corner::DRB => 7,
        }
    }

    /// The cubie with the given number.
    pub fn from_index(i: u8) -> (c: Corner)
        requires
            i < 8,
        ensures
            c == Corner::of_number(i as int),
            c.number() == i,
    {
        if i == 0 {
            Corner::URF
        } else if i == 1 {
            Corner::UFL
        } else if i == 2 {
            Corner::ULB
        } else if i == 3 {
            Corner::UBR
        } else if i == 4 {
            Corner::DFR
        } else if i == 5 {
            Corner::DLF
        } else if i == 6 {
            Corner::DBL
        } else {
            Corner::DRB
        }
    }

    /// The three faces of the cubie, the U or D face first, then clockwise.
    pub open spec fn faces(self) -> (Face, Face, Face) {
        match self {
            Corner::URF => (Face::U, Face::R, Face::F),
            Corner::UFL => (Face::U, Face::F, Face::L),
            Corner::ULB => (Face::U, Face::L, Face::B),
            Corner::UBR => (Face::U, Face::B, Face::R),
            Corner::DFR => (Face::D, Face::F, Face::R),
            Corner::DLF => (Face::D, Face::L, Face::F),
            Corner::DBL => (Face::D, Face::B, Face::L),
            Corner::DRB => (Face::D, Face::R, Face::B),
        }
    }

    /// The three faces of the cubie.
    pub fn decompose(&self) -> (t: (Face, Face, Face))
        ensures
            t == self.faces(),
    {
        match *self {
            Corner::URF => (Face::U, Face::R, Face::F),
            Corner::UFL => (Face::U, Face::F, Face::L),
            Corner::ULB => (Face::U, Face::L, Face::B),
            Corner::UBR => (Face::U, Face::B, Face::R),
            Corner::DFR => (Face::D, Face::F, Face::R),
            Corner::DLF => (Face::D, Face::L, Face::F),
            Corner::DBL => (Face::D, Face::B, Face::L),
            Corner::DRB => (Face::D, Face::R, Face::B),
        }
    }

    /// The colours that the cubie shows where it sits at its own position,
    /// twisted clockwise by `orientation` thirds of a turn: on the U or D
    /// side first, then on the two other sides clockwise.
    pub open spec fn oriented(self, orientation: u8) -> (Face, Face, Face) {
        let (a, b, c) = self.faces();
        if orientation == 0 {
            (a, b, c)
        } else if orientation == 1 {
            (c, a, b)
        } else {
            (b, c, a)
        }
    }

    /// The colours that the twisted cubie shows at its own position.
    pub fn orient(&self, orientation: u8) -> (t: (Face, Face, Face))
        ensures
            t == self.oriented(orientation),
    {
        let (a, b, c) = self.decompose();
        match orientation {
            0 => (a, b, c),
            1 => (c, a, b),
            _ => (b, c, a),
        }
    }

    /// The colour that the cubie shows on the side `face` of the cube when it
    /// sits at the position `cubicle`, twisted by `orientation`.
    pub open spec fn shown(self, cubicle: Corner, orientation: u8, face: Face) -> Face {
        let (oa, ob, oc) = self.oriented(orientation);
        let (a, b, _c) = cubicle.faces();
        if face == a {
            oa
        } else if face == b {
            ob
        } else {
            oc
        }
    }

    /// The colour that the cubie shows on one side of the cube.
    pub fn get_face(&self, cubicle: Corner, orientation: u8, face: Face) -> (shown: Face)
        ensures
            shown == self.shown(cubicle, orientation, face),
    {
        let (oriented_a, oriented_b, oriented_c) = self.orient(orientation);
        let (a, b, _c) = cubicle.decompose();
        if face == a {
            oriented_a
        } else if face == b {
            oriented_b
        } else {
            oriented_c
        }
    }
}

/// The position from which a clockwise quarter turn of `f` brings a corner
/// cubie to position `i`.
pub open spec fn corner_from(f: Face, i: int) -> int {
    match f {
        Face::U => seq![3int, 0, 1, 2, 4, 5, 6, 7][i],
        Face::R => seq![4int, 1, 2, 0, 7, 5, 6, 3][i],
        Face::F => seq![1int, 5, 2, 3, 0, 4, 6, 7][i],
        Face::D => seq![0int, 1, 2, 3, 5, 6, 7, 4][i],
        Face::L => seq![0int, 2, 6, 3, 4, 1, 5, 7][i],
        Face::B => seq![0int, 1, 3, 7, 4, 5, 2, 6][i],
    }
}

/// How much a clockwise quarter turn of `f` twists the corner cubie that it
/// brings to position `i`.
pub open spec fn corner_twist(f: Face, i: int) -> int {
    match f {
        Face::U => seq![0int, 0, 0, 0, 0, 0, 0, 0][i],
        Face::R => seq![2int, 0, 0, 1, 1, 0, 0, 2][i],
        Face::F => seq![1int, 2, 0, 0, 2, 1, 0, 0][i],
        Face::D => seq![0int, 0, 0, 0, 0, 0, 0, 0][i],
        Face::L => seq![0int, 1, 2, 0, 0, 2, 1, 0][i],
        Face::B => seq![0int, 0, 1, 2, 0, 0, 2, 1][i],
    }
}

/// The position from which a clockwise quarter turn of `f` brings a corner
/// cubie to position `i`.
pub fn corner_source(f: Face, i: usize) -> (r: u8)
    requires
        i < 8,
    ensures
        r == corner_from(f, i as int),
        r < 8,
{
    let rows: [[u8; 8]; 6] = [
        [3, 0, 1, 2, 4, 5, 6, 7],
        [4, 1, 2, 0, 7, 5, 6, 3],
        [1, 5, 2, 3, 0, 4, 6, 7],
        [0, 1, 2, 3, 5, 6, 7, 4],
        [0, 2, 6, 3, 4, 1, 5, 7],
        [0, 1, 3, 7, 4, 5, 2, 6],
    ];
    rows[f.axis()][i]
}

/// The twist that a clockwise quarter turn of `f` adds at position `i`.
pub fn corner_turn(f: Face, i: usize) -> (r: u8)
    requires
        i < 8,
    ensures
        r == corner_twist(f, i as int),
        r < 3,
{
    let rows: [[u8; 8]; 6] = [
        [0, 0, 0, 0, 0, 0, 0, 0],
        [2, 0, 0, 1, 1, 0, 0, 2],
        [1, 2, 0, 0, 2, 1, 0, 0],
        [0, 0, 0, 0, 0, 0, 0, 0],
        [0, 1, 2, 0, 0, 2, 1, 0],
        [0, 0, 1, 2, 0, 0, 2, 1],
    ];
    rows[f.axis()][i]
}

impl From<Corner> for usize {
    fn from(c: Corner) -> (i: usize) {
        match c {
            Corner::URF => 0,
            Corner::UFL => 1,
            Corner::ULB => 2,
            Corner::UBR => 3,
            Corner::DFR => 4,
            Corner::DLF => 5,
            Corner::DBL => 6,
            Corner::DRB => 7,
        }
    }
}

impl vstd::std_specs::convert::FromSpecImpl<Corner> for usize {
    open spec fn obeys_from_spec() -> bool {
        true
    }

    open spec fn from_spec(c: Corner) -> usize {
        c.number() as usize
    }
}

/// The corners after a clockwise quarter turn of `f`.
pub open spec fn turn_corners(c: CubieState, f: Face) -> CubieState {
    CubieState {
        perm: Seq::new(8, |i: int| c.perm[corner_from(f, i)]),
        ori: Seq::new(8, |i: int| (c.ori[corner_from(f, i)] + corner_twist(f, i)) % 3),
    }
}

/// The corners after `t` clockwise quarter turns of `f`.
pub open spec fn turn_corners_times(c: CubieState, f: Face, t: nat) -> CubieState
    decreases t,
{
    if t == 0 {
        c
    } else {
        turn_corners(turn_corners_times(c, f, (t - 1) as nat), f)
    }
}

/// The corners after a move.
pub open spec fn move_corners(c: CubieState, m: Move) -> CubieState {
    turn_corners_times(c, m.face_spec(), m.turns_spec())
}

/// The sum of the twists of all eight corners.
pub open spec fn twist_total(ori: Seq<int>) -> int {
    ori[0] + ori[1] + ori[2] + ori[3] + ori[4] + ori[5] + ori[6] + ori[7]
}

/// The twist coordinate: the twists of the first seven corners as the digits
/// of a number in base 3, the first corner's twist the highest digit.
pub open spec fn twist_rank(ori: Seq<int>) -> int {
    (((((ori[0] * 3 + ori[1]) * 3 + ori[2]) * 3 + ori[3]) * 3 + ori[4]) * 3 + ori[5]) * 3 + ori[6]
}

/// The twists with the given twist coordinate: the first seven are its digits,
/// the eighth brings the sum of all eight to a multiple of 3.
pub open spec fn twist_unrank(x: int) -> Seq<int> {
    let d6 = x % 3;
    let d5 = (x / 3) % 3;
    let d4 = (x / 3 / 3) % 3;
    let d3 = (x / 3 / 3 / 3) % 3;
    let d2 = (x / 3 / 3 / 3 / 3) % 3;
    let d1 = (x / 3 / 3 / 3 / 3 / 3) % 3;
    let d0 = (x / 3 / 3 / 3 / 3 / 3 / 3) % 3;
    let d7 = (3 - (d0 + d1 + d2 + d3 + d4 + d5 + d6) % 3) % 3;
    seq![d0, d1, d2, d3, d4, d5, d6, d7]
}

/// The slots of the six corners URF to DLF.
pub open spec fn urf_to_dlf_slots(perm: Seq<int>) -> Seq<int> {
    slots_of(perm, 0, 6)
}

/// The coordinate of the six corners URF to DLF.
pub open spec fn urf_to_dlf_rank(perm: Seq<int>) -> nat {
    arrangement_rank(urf_to_dlf_slots(perm), 6)
}

/// The arrangement of the corners with the given coordinate of URF to DLF:
/// the two corners left stand in rising order.
pub open spec fn urf_to_dlf_unrank(x: nat) -> Seq<int> {
    complete(arrangement_unrank(8, 6, x), 0, 6)
}

/// The parity of the corner arrangement: 0 where the number of pairs in
/// falling order is even, 1 where it is odd.
pub open spec fn corner_parity_of(perm: Seq<int>) -> int {
    (inversions(perm, 8) % 2) as int
}

/// The eight corners of a cube.
#[derive(Clone, Copy, Debug, PartialEq, Eq)]
pub struct Corners {
    /// The cubie at each position.
    pub permutations: [Corner; 8],
    /// The twist of the cubie at each position: 0, 1 or 2 thirds of a turn
    /// clockwise.
    pub orientations: [u8; 8],
}

impl Default for Corners {
    fn default() -> (c: Corners)
        ensures
            c@ == CubieState::solved(8),
            c.wf(),
    {
        let mut corners: [Corner; 8] = [Corner::URF; 8];
        corners[usize::from(Corner::URF)] = Corner::URF;
        corners[usize::from(Corner::UFL)] = Corner::UFL;
        corners[usize::from(Corner::ULB)] = Corner::ULB;
        corners[usize::from(Corner::UBR)] = Corner::UBR;
        corners[usize::from(Corner::DFR)] = Corner::DFR;
        corners[usize::from(Corner::DLF)] = Corner::DLF;
        corners[usize::from(Corner::DBL)] = Corner::DBL;
        corners[usize::from(Corner::DRB)] = Corner::DRB;
        let c = Corners { permutations: corners, orientations: [0; 8] };
        proof {
            assert(c@.perm =~= CubieState::solved(8).perm);
            assert(c@.ori =~= CubieState::solved(8).ori);
            lemma_pigeonhole(c@.perm, 8);
        }
        c
    }
}

impl View for Corners {
    type V = CubieState;

    open spec fn view(&self) -> CubieState {
        CubieState {
            perm: Seq::new(8, |i: int| self.permutations[i].number()),
            ori: Seq::new(8, |i: int| self.orientations[i] as int),
        }
    }
}

/// A quarter turn moves the corners among the eight positions, one to one.
#[verifier::rlimit(50)]
pub proof fn lemma_corner_from(f: Face)
    ensures
        forall|i: int| 0 <= i < 8 ==> 0 <= #[trigger] corner_from(f, i) < 8,
        forall|i: int, j: int|
            0 <= i < 8 && 0 <= j < 8 && i != j ==> corner_from(f, i) != corner_from(f, j),
        forall|i: int|
            0 <= i < 8 ==> corner_from(
                f,
                corner_from(f, corner_from(f, #[trigger] corner_from(f, i))),
            ) == i,
{
}

/// A quarter turn of a valid corner state gives a valid corner state.
pub proof fn lemma_turn_corners_valid(c: CubieState, f: Face)
    requires
        c.valid(8, 3),
    ensures
        turn_corners(c, f).valid(8, 3),
{
    let t = turn_corners(c, f);
    lemma_corner_from(f);
    assert forall|i: int, j: int| 0 <= i < 8 && 0 <= j < 8 && i != j implies t.perm[i]
        != t.perm[j] by {
        assert(corner_from(f, i) != corner_from(f, j));
    }
    assert forall|i: int| 0 <= i < 8 implies 0 <= #[trigger] t.perm[i] < 8 by {
        assert(0 <= corner_from(f, i) < 8);
    }
    lemma_pigeonhole(t.perm, 8);
    assert forall|i: int| 0 <= i < 8 implies 0 <= #[trigger] t.ori[i] < 3 by {
        assert(0 <= corner_from(f, i) < 8);
    }
}

/// Any number of quarter turns of a valid corner state gives a valid corner
/// state.
pub proof fn lemma_turn_corners_times_valid(c: CubieState, f: Face, t: nat)
    requires
        c.valid(8, 3),
    ensures
        turn_corners_times(c, f, t).valid(8, 3),
    decreases t,
{
    if t > 0 {
        lemma_turn_corners_times_valid(c, f, (t - 1) as nat);
        lemma_turn_corners_valid(turn_corners_times(c, f, (t - 1) as nat), f);
    }
}

/// Adding to each of eight numbers, and reducing each sum modulo 3, changes
/// the sum of the eight by a multiple of 3, where the additions sum to one.
pub proof fn lemma_sum_of_twists(
    a0: int,
    a1: int,
    a2: int,
    a3: int,
    a4: int,
    a5: int,
    a6: int,
    a7: int,
    t0: int,
    t1: int,
    t2: int,
    t3: int,
    t4: int,
    t5: int,
    t6: int,
    t7: int,
)
    requires
        (t0 + t1 + t2 + t3 + t4 + t5 + t6 + t7) % 3 == 0,
    ensures
        ((a0 + t0) % 3 + (a1 + t1) % 3 + (a2 + t2) % 3 + (a3 + t3) % 3 + (a4 + t4) % 3 + (a5
            + t5) % 3 + (a6 + t6) % 3 + (a7 + t7) % 3) % 3 == (a0 + a1 + a2 + a3 + a4 + a5 + a6
            + a7) % 3,
{
    lemma_add_reduced((a1 + t1) + (a2 + t2) + (a3 + t3) + (a4 + t4) + (a5 + t5) + (a6 + t6) + (a7
        + t7), a0 + t0, 3);
    assert(((a0 + t0) % 3 + (a1 + t1) + (a2 + t2) + (a3 + t3) + (a4 + t4) + (a5 + t5) + (a6 + t6)
        + (a7 + t7)) % 3 == ((a0 + t0) + (a1 + t1) + (a2 + t2) + (a3 + t3) + (a4 + t4) + (a5
        + t5) + (a6 + t6) + (a7 + t7)) % 3);
    lemma_add_reduced((a0 + t0) % 3 + (a2 + t2) + (a3 + t3) + (a4 + t4) + (a5 + t5) + (a6 + t6)
        + (a7 + t7), a1 + t1, 3);
    assert(((a0 + t0) % 3 + (a1 + t1) % 3 + (a2 + t2) + (a3 + t3) + (a4 + t4) + (a5 + t5) + (a6
        + t6) + (a7 + t7)) % 3 == ((a0 + t0) % 3 + (a1 + t1) + (a2 + t2) + (a3 + t3) + (a4 + t4)
        + (a5 + t5) + (a6 + t6) + (a7 + t7)) % 3);
    lemma_add_reduced((a0 + t0) % 3 + (a1 + t1) % 3 + (a3 + t3) + (a4 + t4) + (a5 + t5) + (a6
        + t6) + (a7 + t7), a2 + t2, 3);
    assert(((a0 + t0) % 3 + (a1 + t1) % 3 + (a2 + t2) % 3 + (a3 + t3) + (a4 + t4) + (a5 + t5)
        + (a6 + t6) + (a7 + t7)) % 3 == ((a0 + t0) % 3 + (a1 + t1) % 3 + (a2 + t2) + (a3 + t3)
        + (a4 + t4) + (a5 + t5) + (a6 + t6) + (a7 + t7)) % 3);
    lemma_add_reduced((a0 + t0) % 3 + (a1 + t1) % 3 + (a2 + t2) % 3 + (a4 + t4) + (a5 + t5) + (a6
        + t6) + (a7 + t7), a3 + t3, 3);
    assert(((a0 + t0) % 3 + (a1 + t1) % 3 + (a2 + t2) % 3 + (a3 + t3) % 3 + (a4 + t4) + (a5 + t5)
        + (a6 + t6) + (a7 + t7)) % 3 == ((a0 + t0) % 3 + (a1 + t1) % 3 + (a2 + t2) % 3 + (a3
        + t3) + (a4 + t4) + (a5 + t5) + (a6 + t6) + (a7 + t7)) % 3);
    lemma_add_reduced((a0 + t0) % 3 + (a1 + t1) % 3 + (a2 + t2) % 3 + (a3 + t3) % 3 + (a5 + t5)
        + (a6 + t6) + (a7 + t7), a4 + t4, 3);
    assert(((a0 + t0) % 3 + (a1 + t1) % 3 + (a2 + t2) % 3 + (a3 + t3) % 3 + (a4 + t4) % 3 + (a5
        + t5) + (a6 + t6) + (a7 + t7)) % 3 == ((a0 + t0) % 3 + (a1 + t1) % 3 + (a2 + t2) % 3
        + (a3 + t3) % 3 + (a4 + t4) + (a5 + t5) + (a6 + t6) + (a7 + t7)) % 3);
    lemma_add_reduced((a0 + t0) % 3 + (a1 + t1) % 3 + (a2 + t2) % 3 + (a3 + t3) % 3 + (a4 + t4)
        % 3 + (a6 + t6) + (a7 + t7), a5 + t5, 3);
    assert(((a0 + t0) % 3 + (a1 + t1) % 3 + (a2 + t2) % 3 + (a3 + t3) % 3 + (a4 + t4) % 3 + (a5
        + t5) % 3 + (a6 + t6) + (a7 + t7)) % 3 == ((a0 + t0) % 3 + (a1 + t1) % 3 + (a2 + t2) % 3
        + (a3 + t3) % 3 + (a4 + t4) % 3 + (a5 + t5) + (a6 + t6) + (a7 + t7)) % 3);
    lemma_add_reduced((a0 + t0) % 3 + (a1 + t1) % 3 + (a2 + t2) % 3 + (a3 + t3) % 3 + (a4 + t4)
        % 3 + (a5 + t5) % 3 + (a7 + t7), a6 + t6, 3);
    assert(((a0 + t0) % 3 + (a1 + t1) % 3 + (a2 + t2) % 3 + (a3 + t3) % 3 + (a4 + t4) % 3 + (a5
        + t5) % 3 + (a6 + t6) % 3 + (a7 + t7)) % 3 == ((a0 + t0) % 3 + (a1 + t1) % 3 + (a2 + t2)
        % 3 + (a3 + t3) % 3 + (a4 + t4) % 3 + (a5 + t5) % 3 + (a6 + t6) + (a7 + t7)) % 3);
    lemma_add_reduced((a0 + t0) % 3 + (a1 + t1) % 3 + (a2 + t2) % 3 + (a3 + t3) % 3 + (a4 + t4)
        % 3 + (a5 + t5) % 3 + (a6 + t6) % 3, a7 + t7, 3);
    assert(((a0 + t0) % 3 + (a1 + t1) % 3 + (a2 + t2) % 3 + (a3 + t3) % 3 + (a4 + t4) % 3 + (a5
        + t5) % 3 + (a6 + t6) % 3 + (a7 + t7) % 3) % 3 == ((a0 + t0) % 3 + (a1 + t1) % 3 + (a2
        + t2) % 3 + (a3 + t3) % 3 + (a4 + t4) % 3 + (a5 + t5) % 3 + (a6 + t6) % 3 + (a7 + t7)) % 3);
    lemma_add_multiple(a0 + a1 + a2 + a3 + a4 + a5 + a6 + a7, t0 + t1 + t2 + t3 + t4 + t5 + t6
        + t7, 3);
}

/// A quarter turn leaves the sum of the corner twists as it is, modulo 3.
#[verifier::rlimit(50)]
pub proof fn lemma_turn_corners_twist_total(c: CubieState, f: Face)
    requires
        c.valid(8, 3),
    ensures
        twist_total(turn_corners(c, f).ori) % 3 == twist_total(c.ori) % 3,
{
    let t = turn_corners(c, f);
    match f {
        Face::U => {
            assert(t.ori[0] == (c.ori[3] + 0) % 3);
            assert(t.ori[1] == (c.ori[0] + 0) % 3);
            assert(t.ori[2] == (c.ori[1] + 0) % 3);
            assert(t.ori[3] == (c.ori[2] + 0) % 3);
            assert(t.ori[4] == (c.ori[4] + 0) % 3);
            assert(t.ori[5] == (c.ori[5] + 0) % 3);
            assert(t.ori[6] == (c.ori[6] + 0) % 3);
            assert(t.ori[7] == (c.ori[7] + 0) % 3);
            lemma_sum_of_twists(c.ori[3], c.ori[0], c.ori[1], c.ori[2], c.ori[4], c.ori[5],
                c.ori[6], c.ori[7], 0, 0, 0, 0, 0, 0, 0, 0);
        },
        Face::R => {
            assert(t.ori[0] == (c.ori[4] + 2) % 3);
            assert(t.ori[1] == (c.ori[1] + 0) % 3);
            assert(t.ori[2] == (c.ori[2] + 0) % 3);
            assert(t.ori[3] == (c.ori[0] + 1) % 3);
            assert(t.ori[4] == (c.ori[7] + 1) % 3);
            assert(t.ori[5] == (c.ori[5] + 0) % 3);
            assert(t.ori[6] == (c.ori[6] + 0) % 3);
            assert(t.ori[7] == (c.ori[3] + 2) % 3);
            lemma_sum_of_twists(c.ori[4], c.ori[1], c.ori[2], c.ori[0], c.ori[7], c.ori[5],
                c.ori[6], c.ori[3], 2, 0, 0, 1, 1, 0, 0, 2);
        },
        Face::F => {
            assert(t.ori[0] == (c.ori[1] + 1) % 3);
            assert(t.ori[1] == (c.ori[5] + 2) % 3);
            assert(t.ori[2] == (c.ori[2] + 0) % 3);
            assert(t.ori[3] == (c.ori[3] + 0) % 3);
            assert(t.ori[4] == (c.ori[0] + 2) % 3);
            assert(t.ori[5] == (c.ori[4] + 1) % 3);
            assert(t.ori[6] == (c.ori[6] + 0) % 3);
            assert(t.ori[7] == (c.ori[7] + 0) % 3);
            lemma_sum_of_twists(c.ori[1], c.ori[5], c.ori[2], c.ori[3], c.ori[0], c.ori[4],
                c.ori[6], c.ori[7], 1, 2, 0, 0, 2, 1, 0, 0);
        },
        Face::D => {
            assert(t.ori[0] == (c.ori[0] + 0) % 3);
            assert(t.ori[1] == (c.ori[1] + 0) % 3);
            assert(t.ori[2] == (c.ori[2] + 0) % 3);
            assert(t.ori[3] == (c.ori[3] + 0) % 3);
            assert(t.ori[4] == (c.ori[5] + 0) % 3);
            assert(t.ori[5] == (c.ori[6] + 0) % 3);
            assert(t.ori[6] == (c.ori[7] + 0) % 3);
            assert(t.ori[7] == (c.ori[4] + 0) % 3);
            lemma_sum_of_twists(c.ori[0], c.ori[1], c.ori[2], c.ori[3], c.ori[5], c.ori[6],
                c.ori[7], c.ori[4], 0, 0, 0, 0, 0, 0, 0, 0);
        },
        Face::L => {
            assert(t.ori[0] == (c.ori[0] + 0) % 3);
            assert(t.ori[1] == (c.ori[2] + 1) % 3);
            assert(t.ori[2] == (c.ori[6] + 2) % 3);
            assert(t.ori[3] == (c.ori[3] + 0) % 3);
            assert(t.ori[4] == (c.ori[4] + 0) % 3);
            assert(t.ori[5] == (c.ori[1] + 2) % 3);
            assert(t.ori[6] == (c.ori[5] + 1) % 3);
            assert(t.ori[7] == (c.ori[7] + 0) % 3);
            lemma_sum_of_twists(c.ori[0], c.ori[2], c.ori[6], c.ori[3], c.ori[4], c.ori[1],
                c.ori[5], c.ori[7], 0, 1, 2, 0, 0, 2, 1, 0);
        },
        Face::B => {
            assert(t.ori[0] == (c.ori[0] + 0) % 3);
            assert(t.ori[1] == (c.ori[1] + 0) % 3);
            assert(t.ori[2] == (c.ori[3] + 1) % 3);
            assert(t.ori[3] == (c.ori[7] + 2) % 3);
            assert(t.ori[4] == (c.ori[4] + 0) % 3);
            assert(t.ori[5] == (c.ori[5] + 0) % 3);
            assert(t.ori[6] == (c.ori[2] + 2) % 3);
            assert(t.ori[7] == (c.ori[6] + 1) % 3);
            lemma_sum_of_twists(c.ori[0], c.ori[1], c.ori[3], c.ori[7], c.ori[4], c.ori[5],
                c.ori[2], c.ori[6], 0, 0, 1, 2, 0, 0, 2, 1);
        },
    }
}

/// Four quarter turns of one face bring a position back to itself, and what
/// they add to the turning of its cubie sums to a multiple of 3.
#[verifier::rlimit(50)]
pub proof fn lemma_corner_cycle(f: Face, i: int)
    requires
        0 <= i < 8,
    ensures
        0 <= corner_from(f, i) < 8,
        0 <= corner_from(f, corner_from(f, i)) < 8,
        0 <= corner_from(f, corner_from(f, corner_from(f, i))) < 8,
        corner_from(f, corner_from(f, corner_from(f, corner_from(f, i)))) == i,
        0 <= corner_twist(f, i) < 3,
        (corner_twist(f, i) + corner_twist(f, corner_from(f, i)) + corner_twist(f, corner_from(f,
            corner_from(f, i))) + corner_twist(
            f,
            corner_from(f, corner_from(f, corner_from(f, i))),
        )) % 3 == 0,
{
    match f {
        Face::U => {},
        Face::R => {},
        Face::F => {},
        Face::D => {},
        Face::L => {},
        Face::B => {},
    }
}

/// Additions that sum to a multiple of the modulus, each followed by a
/// reduction, bring a reduced number back to itself.
pub proof fn lemma_corner_four_additions(o: int, a: int, b: int, c: int, d: int)
    requires
        0 <= o < 3,
        (a + b + c + d) % 3 == 0,
    ensures
        ((((o + a) % 3 + b) % 3 + c) % 3 + d) % 3 == o,
{
    lemma_add_reduced(b, o + a, 3);
    lemma_add_reduced(c, o + a + b, 3);
    lemma_add_reduced(d, o + a + b + c, 3);
    lemma_add_multiple(o, a + b + c + d, 3);
}

/// Four quarter turns of one face bring every corner back.
pub proof fn lemma_four_corner_turns(c: CubieState, f: Face)
    requires
        c.valid(8, 3),
    ensures
        turn_corners_times(c, f, 4) == c,
{
    let c1 = turn_corners(c, f);
    let c2 = turn_corners(c1, f);
    let c3 = turn_corners(c2, f);
    let c4 = turn_corners(c3, f);
    assert(turn_corners_times(c, f, 0) == c);
    assert(turn_corners_times(c, f, 1) == c1);
    assert(turn_corners_times(c, f, 2) == c2);
    assert(turn_corners_times(c, f, 3) == c3);
    assert(turn_corners_times(c, f, 4) == c4);
    assert forall|i: int| 0 <= i < 8 implies c4.perm[i] == c.perm[i] && c4.ori[i] == c.ori[i] by {
        let i1 = corner_from(f, i);
        let i2 = corner_from(f, i1);
        let i3 = corner_from(f, i2);
        lemma_corner_cycle(f, i);
        assert(0 <= c.ori[i] < 3);
        assert(c1.ori[i3] == (c.ori[i] + corner_twist(f, i3)) % 3);
        assert(c2.ori[i2] == (c1.ori[i3] + corner_twist(f, i2)) % 3);
        assert(c3.ori[i1] == (c2.ori[i2] + corner_twist(f, i1)) % 3);
        assert(c4.ori[i] == (c3.ori[i1] + corner_twist(f, i)) % 3);
        lemma_corner_four_additions(
            c.ori[i],
            corner_twist(f, i3),
            corner_twist(f, i2),
            corner_twist(f, i1),
            corner_twist(f, i),
        );
    }
    assert(c4.perm =~= c.perm);
    assert(c4.ori =~= c.ori);
}

/// The twists that `twist_unrank` gives have the coordinate they were made
/// from, lie in range, and sum to a multiple of 3.
pub proof fn lemma_twist_unrank(x: int)
    requires
        0 <= x < NB_TWIST,
    ensures
        twist_unrank(x).len() == 8,
        forall|i: int| 0 <= i < 8 ==> 0 <= #[trigger] twist_unrank(x)[i] < 3,
        twist_rank(twist_unrank(x)) == x,
        twist_total(twist_unrank(x)) % 3 == 0,
{
}

/// Twists in range that sum to a multiple of 3 are the ones that
/// `twist_unrank` gives for their coordinate, which is below `3^7`.
pub proof fn lemma_twist_rank(ori: Seq<int>)
    requires
        ori.len() == 8,
        forall|i: int| 0 <= i < 8 ==> 0 <= #[trigger] ori[i] < 3,
        twist_total(ori) % 3 == 0,
    ensures
        0 <= twist_rank(ori) < NB_TWIST,
        twist_unrank(twist_rank(ori)) == ori,
{
    assert(0 <= ori[0] < 3 && 0 <= ori[1] < 3 && 0 <= ori[2] < 3 && 0 <= ori[3] < 3 && 0 <= ori[4]
        < 3 && 0 <= ori[5] < 3 && 0 <= ori[6] < 3 && 0 <= ori[7] < 3);
    let x0 = ori[0];
    let x1 = x0 * 3 + ori[1];
    let x2 = x1 * 3 + ori[2];
    let x3 = x2 * 3 + ori[3];
    let x4 = x3 * 3 + ori[4];
    let x5 = x4 * 3 + ori[5];
    let x6 = x5 * 3 + ori[6];
    assert(x6 == twist_rank(ori));
    assert(x6 / 3 == x5 && x6 % 3 == ori[6]);
    assert(x5 / 3 == x4 && x5 % 3 == ori[5]);
    assert(x4 / 3 == x3 && x4 % 3 == ori[4]);
    assert(x3 / 3 == x2 && x3 % 3 == ori[3]);
    assert(x2 / 3 == x1 && x2 % 3 == ori[2]);
    assert(x1 / 3 == x0 && x1 % 3 == ori[1]);
    assert(x0 % 3 == ori[0]);
    let u = twist_unrank(x6);
    assert(u[0] == ori[0] && u[1] == ori[1] && u[2] == ori[2] && u[3] == ori[3] && u[4] == ori[4]
        && u[5] == ori[5] && u[6] == ori[6]);
    assert(u[7] == ori[7]);
    assert(u =~= ori);
}

impl Corners {
    /// Eight different cubies, each twist below 3.
    pub open spec fn wf(&self) -> bool {
        self@.valid(8, 3)
    }

    /// The solved corners.
    pub fn new() -> (c: Corners)
        ensures
            c@ == CubieState::solved(8),
            c.wf(),
    {
        Corners::default()
    }

    /// Whether the cubies are 8 different ones and each is turned by less
    /// than 3.
    pub fn is_well_formed(&self) -> (b: bool)
        ensures
            b == self.wf(),
    {
        let mut i: usize = 0;
        while i < 8
            invariant
                i <= 8,
                forall|j: int| 0 <= j < i ==> 0 <= #[trigger] self@.ori[j] < 3,
            decreases 8 - i,
        {
            if self.orientations[i] >= 3 {
                assert(!(0 <= self@.ori[i as int] < 3));
                return false;
            }
            i += 1;
        }
        let mut seen: [bool; 8] = [false; 8];
        let mut i: usize = 0;
        while i < 8
            invariant
                i <= 8,
                forall|j: int, k: int| 0 <= j < k < i ==> self@.perm[j] != self@.perm[k],
                forall|v: int|
                    0 <= v < 8 ==> (#[trigger] seen@[v] <==> exists|j: int|
                        0 <= j < i && self@.perm[j] == v),
            decreases 8 - i,
        {
            let v = self.permutations[i].index() as usize;
            assert(self@.perm[i as int] == v);
            if seen[v] {
                proof {
                    let j = choose|j: int| 0 <= j < i && self@.perm[j] == v;
                    assert(self@.perm[j] == self@.perm[i as int]);
                    assert(!self@.perm.no_duplicates());
                }
                return false;
            }
            let ghost before = seen@;
            seen[v] = true;
            assert forall|w: int| 0 <= w < 8 implies (#[trigger] seen@[w] <==> exists|j: int|
                0 <= j < i + 1 && self@.perm[j] == w) by {
                if w == v {
                    assert(self@.perm[i as int] == w);
                } else {
                    assert(seen@[w] == before[w]);
                    if before[w] {
                        let j = choose|j: int| 0 <= j < i && self@.perm[j] == w;
                        assert(0 <= j < i + 1 && self@.perm[j] == w);
                    }
                    if exists|j: int| 0 <= j < i + 1 && self@.perm[j] == w {
                        let j = choose|j: int| 0 <= j < i + 1 && self@.perm[j] == w;
                        assert(j != i);
                        assert(0 <= j < i && self@.perm[j] == w);
                    }
                }
            }
            i += 1;
        }
        proof {
            assert(self@.perm.no_duplicates());
            lemma_pigeonhole(self@.perm, 8);
        }
        true
    }

    /// Whether every corner sits at its own position, untwisted.
    pub fn is_solved(&self) -> (b: bool)
        ensures
            b == (self@ == CubieState::solved(8)),
    {
        let mut i: usize = 0;
        while i < 8
            invariant
                i <= 8,
                forall|j: int|
                    0 <= j < i ==> self@.perm[j] == j && self@.ori[j] == 0,
            decreases 8 - i,
        {
            if self.permutations[i].index() != i as u8 || self.orientations[i] != 0 {
                assert(self@.perm[i as int] != CubieState::solved(8).perm[i as int]
                    || self@.ori[i as int]
                    != CubieState::solved(8).ori[i as int]);
                return false;
            }
            i += 1;
        }
        assert(self@.perm =~= CubieState::solved(8).perm);
        assert(self@.ori =~= CubieState::solved(8).ori);
        true
    }

    /// The numbers of the cubies, position by position.
    pub fn numbers(&self) -> (v: Vec<u8>)
        ensures
            as_ints(v@) == self@.perm,
            v@.len() == 8,
    {
        let mut v: Vec<u8> = Vec::new();
        let mut i: usize = 0;
        while i < 8
            invariant
                i <= 8,
                v@.len() == i,
                forall|j: int| 0 <= j < i ==> v@[j] as int == self@.perm[j],
            decreases 8 - i,
        {
            v.push(self.permutations[i].index());
            i += 1;
        }
        assert(as_ints(v@) =~= self@.perm);
        v
    }

    /// Puts the cubies with the given numbers at the positions, and leaves
    /// the twists as they are.
    pub fn set_numbers(&mut self, numbers: &Vec<u8>)
        requires
            old(self).wf(),
            numbers@.len() == 8,
            is_arrangement(as_ints(numbers@), 8),
        ensures
            final(self)@.perm == as_ints(numbers@),
            final(self)@.ori == old(self)@.ori,
            final(self).wf(),
    {
        assert forall|i: int| 0 <= i < 8 implies numbers@[i] < 8 by {
            assert(0 <= as_ints(numbers@)[i] < 8);
        }
        let mut perm = self.permutations;
        let mut i: usize = 0;
        while i < 8
            invariant
                i <= 8,
                numbers@.len() == 8,
                forall|j: int| 0 <= j < 8 ==> numbers@[j] < 8,
                forall|j: int| 0 <= j < i ==> perm@[j].number() == numbers@[j],
            decreases 8 - i,
        {
            perm[i] = Corner::from_index(numbers[i]);
            i += 1;
        }
        self.permutations = perm;
        assert(self@.perm =~= as_ints(numbers@));
        assert(self@.ori =~= old(self)@.ori);
        assert forall|i: int| 0 <= i < 8 implies 0 <= #[trigger] self@.ori[i] < 3 by {
            assert(self@.ori[i] == old(self)@.ori[i]);
        }
    }

    /// One clockwise quarter turn of the face `f`.
    pub fn turn(&mut self, f: Face)
        requires
            old(self).wf(),
        ensures
            final(self)@ == turn_corners(old(self)@, f),
            final(self).wf(),
            twist_total(final(self)@.ori) % 3 == twist_total(old(self)@.ori) % 3,
    {
        let from_perm = self.permutations;
        let from_ori = self.orientations;
        let mut perm = self.permutations;
        let mut ori = self.orientations;
        let mut i: usize = 0;
        while i < 8
            invariant
                i <= 8,
                old(self).wf(),
                from_perm == old(self).permutations,
                from_ori == old(self).orientations,
                forall|j: int|
                    0 <= j < i ==> perm@[j] == from_perm@[corner_from(f, j)] && ori@[j] as int == (
                    from_ori@[corner_from(f, j)] + corner_twist(f, j)) % 3,
            decreases 8 - i,
        {
            let s = corner_source(f, i) as usize;
            assert(0 <= old(self)@.ori[s as int] < 3);
            perm[i] = from_perm[s];
            ori[i] = (from_ori[s] + corner_turn(f, i)) % 3;
            i += 1;
        }
        self.permutations = perm;
        self.orientations = ori;
        proof {
            assert(self@.perm =~= turn_corners(old(self)@, f).perm);
            assert(self@.ori =~= turn_corners(old(self)@, f).ori);
            lemma_turn_corners_valid(old(self)@, f);
            lemma_turn_corners_twist_total(old(self)@, f);
        }
    }

    /// `t` clockwise quarter turns of the face `f`.
    pub fn turn_times(&mut self, f: Face, t: usize)
        requires
            old(self).wf(),
        ensures
            final(self)@ == turn_corners_times(old(self)@, f, t as nat),
            final(self).wf(),
            twist_total(final(self)@.ori) % 3 == twist_total(old(self)@.ori) % 3,
    {
        let mut i: usize = 0;
        while i < t
            invariant
                i <= t,
                self.wf(),
                self@ == turn_corners_times(old(self)@, f, i as nat),
                twist_total(self@.ori) % 3 == twist_total(old(self)@.ori) % 3,
            decreases t - i,
        {
            self.turn(f);
            i += 1;
        }
    }

    /// A quarter turn of one face in either direction; the counterclockwise
    /// turn is done as three clockwise ones.
    pub fn apply_move(&mut self, m: CubeMove)
        requires
            old(self).wf(),
        ensures
            final(self)@ == turn_corners_times(old(self)@, m.face_spec(), m.turns_spec()),
            final(self).wf(),
            twist_total(final(self)@.ori) % 3 == twist_total(old(self)@.ori) % 3,
    {
        self.turn_times(m.face(), m.turns());
    }

    /// One of the 18 face turns, on the corners alone.
    pub fn multiply(&mut self, m: Move)
        requires
            old(self).wf(),
        ensures
            final(self)@ == move_corners(old(self)@, m),
            final(self).wf(),
            twist_total(final(self)@.ori) % 3 == twist_total(old(self)@.ori) % 3,
    {
        self.turn_times(m.face(), m.turns());
    }

    /// The twist coordinate.
    pub fn twist(&self) -> (x: u32)
        requires
            self.wf(),
        ensures
            x == twist_rank(self@.ori),
            x < NB_TWIST,
    {
        let ghost o = self@.ori;
        assert(0 <= o[0] < 3 && 0 <= o[1] < 3 && 0 <= o[2] < 3 && 0 <= o[3] < 3 && 0 <= o[4] < 3
            && 0 <= o[5] < 3 && 0 <= o[6] < 3);
        let o0 = self.orientations[0] as u32;
        let o1 = self.orientations[1] as u32;
        let o2 = self.orientations[2] as u32;
        let o3 = self.orientations[3] as u32;
        let o4 = self.orientations[4] as u32;
        let o5 = self.orientations[5] as u32;
        let o6 = self.orientations[6] as u32;
        (((((o0 * 3 + o1) * 3 + o2) * 3 + o3) * 3 + o4) * 3 + o5) * 3 + o6
    }

    /// Twists the corners so that the twist coordinate is `x`, and leaves
    /// them where they are.
    pub fn set_twist(&mut self, x: u32)
        requires
            old(self).wf(),
            x < NB_TWIST,
        ensures
            final(self)@.perm == old(self)@.perm,
            final(self)@.ori == twist_unrank(x as int),
            final(self).wf(),
            twist_rank(final(self)@.ori) == x,
            twist_total(final(self)@.ori) % 3 == 0,
    {
        let d6 = (x % 3) as u8;
        let x5 = x / 3;
        let d5 = (x5 % 3) as u8;
        let x4 = x5 / 3;
        let d4 = (x4 % 3) as u8;
        let x3 = x4 / 3;
        let d3 = (x3 % 3) as u8;
        let x2 = x3 / 3;
        let d2 = (x2 % 3) as u8;
        let x1 = x2 / 3;
        let d1 = (x1 % 3) as u8;
        let x0 = x1 / 3;
        let d0 = (x0 % 3) as u8;
        let d7 = (3 - (d0 + d1 + d2 + d3 + d4 + d5 + d6) % 3) % 3;
        self.orientations = [d0, d1, d2, d3, d4, d5, d6, d7];
        proof {
            lemma_twist_unrank(x as int);
            assert(self@.perm =~= old(self)@.perm);
            assert(self@.ori =~= twist_unrank(x as int));
        }
    }

    /// The coordinate of the six corners URF to DLF.
    pub fn urf_to_dlf(&self) -> (x: u32)
        requires
            self.wf(),
        ensures
            x == urf_to_dlf_rank(self@.perm),
            x < NB_URF_TO_DLF,
    {
        let numbers = self.numbers();
        let slots = slots_from(&numbers, 0, 6);
        proof {
            lemma_slots_of(self@.perm, 8, 0, 6);
            lemma_pascal_rows();
            lemma_factorials();
        }
        arrangement_rank_of(&slots, 6)
    }

    /// Puts the corners so that the coordinate of URF to DLF is `x`, and
    /// leaves the twists as they are.
    pub fn set_urf_to_dlf(&mut self, x: u32)
        requires
            old(self).wf(),
            x < NB_URF_TO_DLF,
        ensures
            final(self)@.perm == urf_to_dlf_unrank(x as nat),
            final(self)@.ori == old(self)@.ori,
            final(self).wf(),
            urf_to_dlf_rank(final(self)@.perm) == x,
    {
        proof {
            lemma_pascal_rows();
            lemma_factorials();
            lemma_unrank_then_rank(8, 6, x as nat);
            lemma_complete(arrangement_unrank(8, 6, x as nat), 8, 0, 6);
        }
        let slots = arrangement_unrank_of(8, 6, x);
        let numbers = complete_from(&slots, 0, 6);
        self.set_numbers(&numbers);
    }

    /// The parity of the corner arrangement.
    pub fn corner_parity(&self) -> (p: u32)
        ensures
            p == corner_parity_of(self@.perm),
            p < NB_PARITY,
    {
        let mut count: u32 = 0;
        let mut i: usize = 0;
        while i < 8
            invariant
                i <= 8,
                count == inversions(self@.perm, i as int),
                count <= 8 * i,
            decreases 8 - i,
        {
            let mut j: usize = 0;
            let mut here: u32 = 0;
            while j < i
                invariant
                    j <= i < 8,
                    here == greater_before(self@.perm, i as int, j as int),
                    here <= j,
                decreases i - j,
            {
                if self.permutations[j].index() > self.permutations[i].index() {
                    here += 1;
                }
                j += 1;
            }
            count += here;
            i += 1;
        }
        count % 2
    }
}

/// Turning `a` times and then `b` times is turning `a + b` times.
pub proof fn lemma_turn_corners_times_add(c: CubieState, f: Face, a: nat, b: nat)
    ensures
        turn_corners_times(turn_corners_times(c, f, a), f, b) == turn_corners_times(c, f, a + b),
    decreases b,
{
    if b > 0 {
        lemma_turn_corners_times_add(c, f, a, (b - 1) as nat);
    }
}

/// Any number of quarter turns leaves the sum of the corner twists as it is,
/// modulo 3.
pub proof fn lemma_turn_corners_times_twist_total(c: CubieState, f: Face, t: nat)
    requires
        c.valid(8, 3),
    ensures
        twist_total(turn_corners_times(c, f, t).ori) % 3 == twist_total(c.ori) % 3,
    decreases t,
{
    if t > 0 {
        lemma_turn_corners_times_twist_total(c, f, (t - 1) as nat);
        lemma_turn_corners_times_valid(c, f, (t - 1) as nat);
        lemma_turn_corners_twist_total(turn_corners_times(c, f, (t - 1) as nat), f);
    }
}

/// A move and then the move that undoes it leave the corners as they were.
pub proof fn lemma_move_corners_back(c: CubieState, m: Move)
    requires
        c.valid(8, 3),
    ensures
        move_corners(move_corners(c, m), m.inverse_spec()) == c,
{
    lemma_turn_corners_times_add(c, m.face_spec(), m.turns_spec(), m.inverse_spec().turns_spec());
    lemma_four_corner_turns(c, m.face_spec());
}

/// The position from which `t` clockwise quarter turns of `f` bring a corner
/// cubie to position `i`.
pub open spec fn corner_from_times(f: Face, i: int, t: nat) -> int
    decreases t,
{
    if t == 0 {
        i
    } else {
        corner_from_times(f, corner_from(f, i), (t - 1) as nat)
    }
}

/// After `t` quarter turns the cubie at a position is the one that was at the
/// position that the turns bring there.
pub proof fn lemma_turn_corners_times_perm(c: CubieState, f: Face, t: nat, i: int)
    requires
        0 <= i < 8,
    ensures
        0 <= corner_from_times(f, i, t) < 8,
        turn_corners_times(c, f, t).perm.len() == if t == 0 {
            c.perm.len()
        } else {
            8
        },
        turn_corners_times(c, f, t).perm[i] == c.perm[corner_from_times(f, i, t)],
    decreases t,
{
    lemma_corner_from(f);
    if t > 0 {
        lemma_turn_corners_times_perm(c, f, (t - 1) as nat, corner_from(f, i));
    }
}

/// How the cubies are twisted after a quarter turn depends only on how they
/// were twisted.
pub proof fn lemma_turn_corners_ori(c: CubieState, d: CubieState, f: Face, t: nat)
    requires
        c.ori == d.ori,
    ensures
        turn_corners_times(c, f, t).ori == turn_corners_times(d, f, t).ori,
    decreases t,
{
    if t > 0 {
        lemma_turn_corners_ori(c, d, f, (t - 1) as nat);
    }
}

/// Whether the cubie at position `i` has a greater number than the cubie at
/// position `j`: 1 where it has, 0 where it has not.
#[verifier::opaque]
pub open spec fn above(p: Seq<int>, i: int, j: int) -> int {
    if p[i] > p[j] {
        1
    } else {
        0
    }
}

/// The number of pairs of positions whose cubies stand in falling order, pair
/// by pair.
pub open spec fn inversions8(p: Seq<int>) -> int {
    above(p, 0, 1) + above(p, 0, 2) + above(p, 1, 2) + above(p, 0, 3) + above(p, 1, 3) + above(p,
        2, 3) + above(p, 0, 4) + above(p, 1, 4) + above(p, 2, 4) + above(p, 3, 4) + above(p, 0,
        5) + above(p, 1, 5) + above(p, 2, 5) + above(p, 3, 5) + above(p, 4, 5) + above(p, 0, 6)
        + above(p, 1, 6) + above(p, 2, 6) + above(p, 3, 6) + above(p, 4, 6) + above(p, 5, 6)
        + above(p, 0, 7) + above(p, 1, 7) + above(p, 2, 7) + above(p, 3, 7) + above(p, 4, 7)
        + above(p, 5, 7) + above(p, 6, 7)
}

/// Counting the pairs in falling order position by position or pair by pair
/// gives the same number.
pub proof fn lemma_inversions8(p: Seq<int>)
    ensures
        inversions(p, 8) == inversions8(p),
{
    reveal(above);
    assert(greater_before(p, 0, 0) == 0);
    assert(greater_before(p, 1, 0) == 0);
    assert(greater_before(p, 1, 1) == greater_before(p, 1, 0) + above(p, 0, 1));
    assert(greater_before(p, 2, 0) == 0);
    assert(greater_before(p, 2, 1) == greater_before(p, 2, 0) + above(p, 0, 2));
    assert(greater_before(p, 2, 2) == greater_before(p, 2, 1) + above(p, 1, 2));
    assert(greater_before(p, 3, 0) == 0);
    assert(greater_before(p, 3, 1) == greater_before(p, 3, 0) + above(p, 0, 3));
    assert(greater_before(p, 3, 2) == greater_before(p, 3, 1) + above(p, 1, 3));
    assert(greater_before(p, 3, 3) == greater_before(p, 3, 2) + above(p, 2, 3));
    assert(greater_before(p, 4, 0) == 0);
    assert(greater_before(p, 4, 1) == greater_before(p, 4, 0) + above(p, 0, 4));
    assert(greater_before(p, 4, 2) == greater_before(p, 4, 1) + above(p, 1, 4));
    assert(greater_before(p, 4, 3) == greater_before(p, 4, 2) + above(p, 2, 4));
    assert(greater_before(p, 4, 4) == greater_before(p, 4, 3) + above(p, 3, 4));
    assert(greater_before(p, 5, 0) == 0);
    assert(greater_before(p, 5, 1) == greater_before(p, 5, 0) + above(p, 0, 5));
    assert(greater_before(p, 5, 2) == greater_before(p, 5, 1) + above(p, 1, 5));
    assert(greater_before(p, 5, 3) == greater_before(p, 5, 2) + above(p, 2, 5));
    assert(greater_before(p, 5, 4) == greater_before(p, 5, 3) + above(p, 3, 5));
    assert(greater_before(p, 5, 5) == greater_before(p, 5, 4) + above(p, 4, 5));
    assert(greater_before(p, 6, 0) == 0);
    assert(greater_before(p, 6, 1) == greater_before(p, 6, 0) + above(p, 0, 6));
    assert(greater_before(p, 6, 2) == greater_before(p, 6, 1) + above(p, 1, 6));
    assert(greater_before(p, 6, 3) == greater_before(p, 6, 2) + above(p, 2, 6));
    assert(greater_before(p, 6, 4) == greater_before(p, 6, 3) + above(p, 3, 6));
    assert(greater_before(p, 6, 5) == greater_before(p, 6, 4) + above(p, 4, 6));
    assert(greater_before(p, 6, 6) == greater_before(p, 6, 5) + above(p, 5, 6));
    assert(greater_before(p, 7, 0) == 0);
    assert(greater_before(p, 7, 1) == greater_before(p, 7, 0) + above(p, 0, 7));
    assert(greater_before(p, 7, 2) == greater_before(p, 7, 1) + above(p, 1, 7));
    assert(greater_before(p, 7, 3) == greater_before(p, 7, 2) + above(p, 2, 7));
    assert(greater_before(p, 7, 4) == greater_before(p, 7, 3) + above(p, 3, 7));
    assert(greater_before(p, 7, 5) == greater_before(p, 7, 4) + above(p, 4, 7));
    assert(greater_before(p, 7, 6) == greater_before(p, 7, 5) + above(p, 5, 7));
    assert(greater_before(p, 7, 7) == greater_before(p, 7, 6) + above(p, 6, 7));
    assert(inversions(p, 0) == 0);
    assert(inversions(p, 1) == inversions(p, 0) + greater_before(p, 0, 0));
    assert(inversions(p, 2) == inversions(p, 1) + greater_before(p, 1, 1));
    assert(inversions(p, 3) == inversions(p, 2) + greater_before(p, 2, 2));
    assert(inversions(p, 4) == inversions(p, 3) + greater_before(p, 3, 3));
    assert(inversions(p, 5) == inversions(p, 4) + greater_before(p, 4, 4));
    assert(inversions(p, 6) == inversions(p, 5) + greater_before(p, 5, 5));
    assert(inversions(p, 7) == inversions(p, 6) + greater_before(p, 6, 6));
    assert(inversions(p, 8) == inversions(p, 7) + greater_before(p, 7, 7));
}

/// Of two different cubies one has the greater number.
pub proof fn lemma_above_flip(p: Seq<int>, i: int, j: int)
    requires
        p[i] != p[j],
    ensures
        above(p, i, j) + above(p, j, i) == 1,
{
    reveal(above);
}

/// After a quarter turn two positions compare as the positions that their
/// cubies came from compared before.
#[verifier::rlimit(50)]
pub proof fn lemma_above_turn(c: CubieState, f: Face, i: int, j: int)
    requires
        0 <= i < 8,
        0 <= j < 8,
    ensures
        above(turn_corners(c, f).perm, i, j) == above(
            c.perm,
            corner_from(f, i),
            corner_from(f, j),
        ),
{
    reveal(above);
}

/// A quarter turn of U changes the number of pairs in falling order by an
/// odd number.
#[verifier::rlimit(50)]
proof fn lemma_up_turn_parity(c: CubieState)
    requires
        c.valid(8, 3),
    ensures
        (inversions8(turn_corners(c, Face::U).perm) + 1) % 2 == inversions8(c.perm) % 2,
{
    let p = c.perm;
    let q = turn_corners(c, Face::U).perm;
    lemma_above_turn(c, Face::U, 0, 1);
    lemma_above_flip(p, 0, 3);
    lemma_above_turn(c, Face::U, 0, 2);
    lemma_above_flip(p, 1, 3);
    lemma_above_turn(c, Face::U, 1, 2);
    lemma_above_turn(c, Face::U, 0, 3);
    lemma_above_flip(p, 2, 3);
    lemma_above_turn(c, Face::U, 1, 3);
    lemma_above_turn(c, Face::U, 2, 3);
    lemma_above_turn(c, Face::U, 0, 4);
    lemma_above_turn(c, Face::U, 1, 4);
    lemma_above_turn(c, Face::U, 2, 4);
    lemma_above_turn(c, Face::U, 3, 4);
    lemma_above_turn(c, Face::U, 0, 5);
    lemma_above_turn(c, Face::U, 1, 5);
    lemma_above_turn(c, Face::U, 2, 5);
    lemma_above_turn(c, Face::U, 3, 5);
    lemma_above_turn(c, Face::U, 4, 5);
    lemma_above_turn(c, Face::U, 0, 6);
    lemma_above_turn(c, Face::U, 1, 6);
    lemma_above_turn(c, Face::U, 2, 6);
    lemma_above_turn(c, Face::U, 3, 6);
    lemma_above_turn(c, Face::U, 4, 6);
    lemma_above_turn(c, Face::U, 5, 6);
    lemma_above_turn(c, Face::U, 0, 7);
    lemma_above_turn(c, Face::U, 1, 7);
    lemma_above_turn(c, Face::U, 2, 7);
    lemma_above_turn(c, Face::U, 3, 7);
    lemma_above_turn(c, Face::U, 4, 7);
    lemma_above_turn(c, Face::U, 5, 7);
    lemma_above_turn(c, Face::U, 6, 7);
    let s = above(p, 0, 3) + above(p, 1, 3) + above(p, 2, 3);
    assert(inversions8(q) == inversions8(p) + 3 - 2 * s);
    lemma_add_multiple(inversions8(p), 4 - 2 * s, 2);
}

/// A quarter turn of R changes the number of pairs in falling order by an
/// odd number.
#[verifier::rlimit(50)]
proof fn lemma_right_turn_parity(c: CubieState)
    requires
        c.valid(8, 3),
    ensures
        (inversions8(turn_corners(c, Face::R).perm) + 1) % 2 == inversions8(c.perm) % 2,
{
    let p = c.perm;
    let q = turn_corners(c, Face::R).perm;
    lemma_above_turn(c, Face::R, 0, 1);
    lemma_above_flip(p, 1, 4);
    lemma_above_turn(c, Face::R, 0, 2);
    lemma_above_flip(p, 2, 4);
    lemma_above_turn(c, Face::R, 1, 2);
    lemma_above_turn(c, Face::R, 0, 3);
    lemma_above_flip(p, 0, 4);
    lemma_above_turn(c, Face::R, 1, 3);
    lemma_above_flip(p, 0, 1);
    lemma_above_turn(c, Face::R, 2, 3);
    lemma_above_flip(p, 0, 2);
    lemma_above_turn(c, Face::R, 0, 4);
    lemma_above_turn(c, Face::R, 1, 4);
    lemma_above_turn(c, Face::R, 2, 4);
    lemma_above_turn(c, Face::R, 3, 4);
    lemma_above_turn(c, Face::R, 0, 5);
    lemma_above_turn(c, Face::R, 1, 5);
    lemma_above_turn(c, Face::R, 2, 5);
    lemma_above_turn(c, Face::R, 3, 5);
    lemma_above_turn(c, Face::R, 4, 5);
    lemma_above_flip(p, 5, 7);
    lemma_above_turn(c, Face::R, 0, 6);
    lemma_above_turn(c, Face::R, 1, 6);
    lemma_above_turn(c, Face::R, 2, 6);
    lemma_above_turn(c, Face::R, 3, 6);
    lemma_above_turn(c, Face::R, 4, 6);
    lemma_above_flip(p, 6, 7);
    lemma_above_turn(c, Face::R, 5, 6);
    lemma_above_turn(c, Face::R, 0, 7);
    lemma_above_flip(p, 3, 4);
    lemma_above_turn(c, Face::R, 1, 7);
    lemma_above_turn(c, Face::R, 2, 7);
    lemma_above_turn(c, Face::R, 3, 7);
    lemma_above_turn(c, Face::R, 4, 7);
    lemma_above_flip(p, 3, 7);
    lemma_above_turn(c, Face::R, 5, 7);
    lemma_above_flip(p, 3, 5);
    lemma_above_turn(c, Face::R, 6, 7);
    lemma_above_flip(p, 3, 6);
    let s = above(p, 1, 4) + above(p, 2, 4) + above(p, 0, 4) + above(p, 0, 1) + above(p, 0, 2)
        + above(p, 5, 7) + above(p, 6, 7) + above(p, 3, 4) + above(p, 3, 7) + above(p, 3, 5)
        + above(p, 3, 6);
    assert(inversions8(q) == inversions8(p) + 11 - 2 * s);
    lemma_add_multiple(inversions8(p), 12 - 2 * s, 2);
}

/// A quarter turn of F changes the number of pairs in falling order by an
/// odd number.
#[verifier::rlimit(50)]
proof fn lemma_front_turn_parity(c: CubieState)
    requires
        c.valid(8, 3),
    ensures
        (inversions8(turn_corners(c, Face::F).perm) + 1) % 2 == inversions8(c.perm) % 2,
{
    let p = c.perm;
    let q = turn_corners(c, Face::F).perm;
    lemma_above_turn(c, Face::F, 0, 1);
    lemma_above_turn(c, Face::F, 0, 2);
    lemma_above_turn(c, Face::F, 1, 2);
    lemma_above_flip(p, 2, 5);
    lemma_above_turn(c, Face::F, 0, 3);
    lemma_above_turn(c, Face::F, 1, 3);
    lemma_above_flip(p, 3, 5);
    lemma_above_turn(c, Face::F, 2, 3);
    lemma_above_turn(c, Face::F, 0, 4);
    lemma_above_flip(p, 0, 1);
    lemma_above_turn(c, Face::F, 1, 4);
    lemma_above_flip(p, 0, 5);
    lemma_above_turn(c, Face::F, 2, 4);
    lemma_above_flip(p, 0, 2);
    lemma_above_turn(c, Face::F, 3, 4);
    lemma_above_flip(p, 0, 3);
    lemma_above_turn(c, Face::F, 0, 5);
    lemma_above_turn(c, Face::F, 1, 5);
    lemma_above_flip(p, 4, 5);
    lemma_above_turn(c, Face::F, 2, 5);
    lemma_above_turn(c, Face::F, 3, 5);
    lemma_above_turn(c, Face::F, 4, 5);
    lemma_above_turn(c, Face::F, 0, 6);
    lemma_above_turn(c, Face::F, 1, 6);
    lemma_above_turn(c, Face::F, 2, 6);
    lemma_above_turn(c, Face::F, 3, 6);
    lemma_above_turn(c, Face::F, 4, 6);
    lemma_above_turn(c, Face::F, 5, 6);
    lemma_above_turn(c, Face::F, 0, 7);
    lemma_above_turn(c, Face::F, 1, 7);
    lemma_above_turn(c, Face::F, 2, 7);
    lemma_above_turn(c, Face::F, 3, 7);
    lemma_above_turn(c, Face::F, 4, 7);
    lemma_above_turn(c, Face::F, 5, 7);
    lemma_above_turn(c, Face::F, 6, 7);
    let s = above(p, 2, 5) + above(p, 3, 5) + above(p, 0, 1) + above(p, 0, 5) + above(p, 0, 2)
        + above(p, 0, 3) + above(p, 4, 5);
    assert(inversions8(q) == inversions8(p) + 7 - 2 * s);
    lemma_add_multiple(inversions8(p), 8 - 2 * s, 2);
}

/// A quarter turn of D changes the number of pairs in falling order by an
/// odd number.
#[verifier::rlimit(50)]
proof fn lemma_down_turn_parity(c: CubieState)
    requires
        c.valid(8, 3),
    ensures
        (inversions8(turn_corners(c, Face::D).perm) + 1) % 2 == inversions8(c.perm) % 2,
{
    let p = c.perm;
    let q = turn_corners(c, Face::D).perm;
    lemma_above_turn(c, Face::D, 0, 1);
    lemma_above_turn(c, Face::D, 0, 2);
    lemma_above_turn(c, Face::D, 1, 2);
    lemma_above_turn(c, Face::D, 0, 3);
    lemma_above_turn(c, Face::D, 1, 3);
    lemma_above_turn(c, Face::D, 2, 3);
    lemma_above_turn(c, Face::D, 0, 4);
    lemma_above_turn(c, Face::D, 1, 4);
    lemma_above_turn(c, Face::D, 2, 4);
    lemma_above_turn(c, Face::D, 3, 4);
    lemma_above_turn(c, Face::D, 0, 5);
    lemma_above_turn(c, Face::D, 1, 5);
    lemma_above_turn(c, Face::D, 2, 5);
    lemma_above_turn(c, Face::D, 3, 5);
    lemma_above_turn(c, Face::D, 4, 5);
    lemma_above_turn(c, Face::D, 0, 6);
    lemma_above_turn(c, Face::D, 1, 6);
    lemma_above_turn(c, Face::D, 2, 6);
    lemma_above_turn(c, Face::D, 3, 6);
    lemma_above_turn(c, Face::D, 4, 6);
    lemma_above_turn(c, Face::D, 5, 6);
    lemma_above_turn(c, Face::D, 0, 7);
    lemma_above_turn(c, Face::D, 1, 7);
    lemma_above_turn(c, Face::D, 2, 7);
    lemma_above_turn(c, Face::D, 3, 7);
    lemma_above_turn(c, Face::D, 4, 7);
    lemma_above_flip(p, 4, 5);
    lemma_above_turn(c, Face::D, 5, 7);
    lemma_above_flip(p, 4, 6);
    lemma_above_turn(c, Face::D, 6, 7);
    lemma_above_flip(p, 4, 7);
    let s = above(p, 4, 5) + above(p, 4, 6) + above(p, 4, 7);
    assert(inversions8(q) == inversions8(p) + 3 - 2 * s);
    lemma_add_multiple(inversions8(p), 4 - 2 * s, 2);
}

/// A quarter turn of L changes the number of pairs in falling order by an
/// odd number.
#[verifier::rlimit(50)]
proof fn lemma_left_turn_parity(c: CubieState)
    requires
        c.valid(8, 3),
    ensures
        (inversions8(turn_corners(c, Face::L).perm) + 1) % 2 == inversions8(c.perm) % 2,
{
    let p = c.perm;
    let q = turn_corners(c, Face::L).perm;
    lemma_above_turn(c, Face::L, 0, 1);
    lemma_above_turn(c, Face::L, 0, 2);
    lemma_above_turn(c, Face::L, 1, 2);
    lemma_above_turn(c, Face::L, 0, 3);
    lemma_above_turn(c, Face::L, 1, 3);
    lemma_above_turn(c, Face::L, 2, 3);
    lemma_above_flip(p, 3, 6);
    lemma_above_turn(c, Face::L, 0, 4);
    lemma_above_turn(c, Face::L, 1, 4);
    lemma_above_turn(c, Face::L, 2, 4);
    lemma_above_flip(p, 4, 6);
    lemma_above_turn(c, Face::L, 3, 4);
    lemma_above_turn(c, Face::L, 0, 5);
    lemma_above_turn(c, Face::L, 1, 5);
    lemma_above_flip(p, 1, 2);
    lemma_above_turn(c, Face::L, 2, 5);
    lemma_above_flip(p, 1, 6);
    lemma_above_turn(c, Face::L, 3, 5);
    lemma_above_flip(p, 1, 3);
    lemma_above_turn(c, Face::L, 4, 5);
    lemma_above_flip(p, 1, 4);
    lemma_above_turn(c, Face::L, 0, 6);
    lemma_above_turn(c, Face::L, 1, 6);
    lemma_above_turn(c, Face::L, 2, 6);
    lemma_above_flip(p, 5, 6);
    lemma_above_turn(c, Face::L, 3, 6);
    lemma_above_turn(c, Face::L, 4, 6);
    lemma_above_turn(c, Face::L, 5, 6);
    lemma_above_turn(c, Face::L, 0, 7);
    lemma_above_turn(c, Face::L, 1, 7);
    lemma_above_turn(c, Face::L, 2, 7);
    lemma_above_turn(c, Face::L, 3, 7);
    lemma_above_turn(c, Face::L, 4, 7);
    lemma_above_turn(c, Face::L, 5, 7);
    lemma_above_turn(c, Face::L, 6, 7);
    let s = above(p, 3, 6) + above(p, 4, 6) + above(p, 1, 2) + above(p, 1, 6) + above(p, 1, 3)
        + above(p, 1, 4) + above(p, 5, 6);
    assert(inversions8(q) == inversions8(p) + 7 - 2 * s);
    lemma_add_multiple(inversions8(p), 8 - 2 * s, 2);
}

/// A quarter turn of B changes the number of pairs in falling order by an
/// odd number.
#[verifier::rlimit(50)]
proof fn lemma_back_turn_parity(c: CubieState)
    requires
        c.valid(8, 3),
    ensures
        (inversions8(turn_corners(c, Face::B).perm) + 1) % 2 == inversions8(c.perm) % 2,
{
    let p = c.perm;
    let q = turn_corners(c, Face::B).perm;
    lemma_above_turn(c, Face::B, 0, 1);
    lemma_above_turn(c, Face::B, 0, 2);
    lemma_above_turn(c, Face::B, 1, 2);
    lemma_above_turn(c, Face::B, 0, 3);
    lemma_above_turn(c, Face::B, 1, 3);
    lemma_above_turn(c, Face::B, 2, 3);
    lemma_above_turn(c, Face::B, 0, 4);
    lemma_above_turn(c, Face::B, 1, 4);
    lemma_above_turn(c, Face::B, 2, 4);
    lemma_above_turn(c, Face::B, 3, 4);
    lemma_above_flip(p, 4, 7);
    lemma_above_turn(c, Face::B, 0, 5);
    lemma_above_turn(c, Face::B, 1, 5);
    lemma_above_turn(c, Face::B, 2, 5);
    lemma_above_turn(c, Face::B, 3, 5);
    lemma_above_flip(p, 5, 7);
    lemma_above_turn(c, Face::B, 4, 5);
    lemma_above_turn(c, Face::B, 0, 6);
    lemma_above_turn(c, Face::B, 1, 6);
    lemma_above_turn(c, Face::B, 2, 6);
    lemma_above_flip(p, 2, 3);
    lemma_above_turn(c, Face::B, 3, 6);
    lemma_above_flip(p, 2, 7);
    lemma_above_turn(c, Face::B, 4, 6);
    lemma_above_flip(p, 2, 4);
    lemma_above_turn(c, Face::B, 5, 6);
    lemma_above_flip(p, 2, 5);
    lemma_above_turn(c, Face::B, 0, 7);
    lemma_above_turn(c, Face::B, 1, 7);
    lemma_above_turn(c, Face::B, 2, 7);
    lemma_above_turn(c, Face::B, 3, 7);
    lemma_above_flip(p, 6, 7);
    lemma_above_turn(c, Face::B, 4, 7);
    lemma_above_turn(c, Face::B, 5, 7);
    lemma_above_turn(c, Face::B, 6, 7);
    let s = above(p, 4, 7) + above(p, 5, 7) + above(p, 2, 3) + above(p, 2, 7) + above(p, 2, 4)
        + above(p, 2, 5) + above(p, 6, 7);
    assert(inversions8(q) == inversions8(p) + 7 - 2 * s);
    lemma_add_multiple(inversions8(p), 8 - 2 * s, 2);
}

/// A quarter turn changes the parity of the corner arrangement.
pub proof fn lemma_turn_corners_parity(c: CubieState, f: Face)
    requires
        c.valid(8, 3),
    ensures
        corner_parity_of(turn_corners(c, f).perm) == 1 - corner_parity_of(c.perm),
{
    lemma_inversions8(c.perm);
    lemma_inversions8(turn_corners(c, f).perm);
    match f {
        Face::U => lemma_up_turn_parity(c),
        Face::R => lemma_right_turn_parity(c),
        Face::F => lemma_front_turn_parity(c),
        Face::D => lemma_down_turn_parity(c),
        Face::L => lemma_left_turn_parity(c),
        Face::B => lemma_back_turn_parity(c),
    }
}

/// A quarter turn or a counterclockwise turn changes the parity of the corner
/// arrangement, a half turn does not.
pub proof fn lemma_move_corners_parity(c: CubieState, m: Move)
    requires
        c.valid(8, 3),
    ensures
        corner_parity_of(move_corners(c, m).perm) == if m.turns_spec() == 2 {
            corner_parity_of(c.perm)
        } else {
            1 - corner_parity_of(c.perm)
        },
{
    let f = m.face_spec();
    let c1 = turn_corners(c, f);
    let c2 = turn_corners(c1, f);
    let c3 = turn_corners(c2, f);
    assert(turn_corners_times(c, f, 0) == c);
    assert(turn_corners_times(c, f, 1) == c1);
    assert(turn_corners_times(c, f, 2) == c2);
    assert(turn_corners_times(c, f, 3) == c3);
    lemma_turn_corners_valid(c, f);
    lemma_turn_corners_valid(c1, f);
    lemma_turn_corners_parity(c, f);
    lemma_turn_corners_parity(c1, f);
    lemma_turn_corners_parity(c2, f);
}

} // verus!
