//! The whole cube: its corners and its edges, the moves on them, and what it
//! shows on each side.

use vstd::prelude::*;
use crate::corners::{
    Corner, corner_parity_of, Corners, lemma_move_corners_back, lemma_turn_corners_times_add,
    lemma_turn_corners_times_twist_total, lemma_turn_corners_times_valid, move_corners, NB_PARITY,
    NB_TWIST, NB_URF_TO_DLF, twist_rank, twist_total, twist_unrank, urf_to_dlf_rank,
    urf_to_dlf_unrank,
};
use crate::cubies::CubieState;
use crate::edges::{
    Edge, Edges, flip_rank, flip_total, flip_unrank, fr_to_br_rank, fr_to_br_unrank,
    lemma_move_edges_back, lemma_turn_edges_times_add, lemma_turn_edges_times_flip_total,
    lemma_turn_edges_times_valid, move_edges, NB_FLIP, NB_FR_TO_BR, NB_UB_TO_DF, NB_UR_TO_DF,
    NB_UR_TO_DF_ANYWHERE, NB_UR_TO_UL, ub_to_df_rank, ub_to_df_unrank, ur_to_df_rank,
    ur_to_df_unrank, ur_to_ul_rank, ur_to_ul_unrank,
};
use crate::face::Face;
use crate::merge::{INVALID, merge_ur_to_df, merged_rank, NB_MERGE, overlapping};
use crate::moves::{CubeMove, Move, undoing};

verus! {

/// The state of a cube: its corners and its edges.
pub struct CubeState {
    pub corners: CubieState,
    pub edges: CubieState,
}

impl CubeState {
    /// Eight different corners with twists below 3, twelve different edges
    /// with flips below 2.
    pub open spec fn valid(self) -> bool {
        self.corners.valid(8, 3) && self.edges.valid(12, 2)
    }

    /// The solved cube.
    pub open spec fn solved() -> CubeState {
        CubeState { corners: CubieState::solved(8), edges: CubieState::solved(12) }
    }

    /// The corner twists sum to a multiple of 3 and the edge flips to an even
    /// number, as in every cube that was not taken apart.
    pub open spec fn balanced(self) -> bool {
        twist_total(self.corners.ori) % 3 == 0 && flip_total(self.edges.ori) % 2 == 0
    }
}

/// The cube after a move.
pub open spec fn move_cube(c: CubeState, m: Move) -> CubeState {
    CubeState { corners: move_corners(c.corners, m), edges: move_edges(c.edges, m) }
}

/// The cube after a sequence of moves, the first move first.
pub open spec fn apply_moves(c: CubeState, ms: Seq<Move>) -> CubeState
    decreases ms.len(),
{
    if ms.len() == 0 {
        c
    } else {
        move_cube(apply_moves(c, ms.drop_last()), ms.last())
    }
}

/// The four corner positions of a side, clockwise from the top left as one
/// looks at the side.
pub open spec fn corner_places(face: Face) -> (Corner, Corner, Corner, Corner) {
    match face {
        Face::F => (Corner::UFL, Corner::URF, Corner::DFR, Corner::DLF),
        Face::B => (Corner::UBR, Corner::ULB, Corner::DBL, Corner::DRB),
        Face::U => (Corner::ULB, Corner::UBR, Corner::URF, Corner::UFL),
        Face::D => (Corner::DLF, Corner::DFR, Corner::DRB, Corner::DBL),
        Face::L => (Corner::ULB, Corner::UFL, Corner::DLF, Corner::DBL),
        Face::R => (Corner::URF, Corner::UBR, Corner::DRB, Corner::DFR),
    }
}

/// The four edge positions of a side: top, right, bottom, left.
pub open spec fn edge_places(face: Face) -> (Edge, Edge, Edge, Edge) {
    match face {
        Face::F => (Edge::UF, Edge::FR, Edge::DF, Edge::FL),
        Face::B => (Edge::UB, Edge::BL, Edge::DB, Edge::BR),
        Face::U => (Edge::UB, Edge::UR, Edge::UF, Edge::UL),
        Face::D => (Edge::DF, Edge::DR, Edge::DB, Edge::DL),
        Face::L => (Edge::UL, Edge::FL, Edge::DL, Edge::BL),
        Face::R => (Edge::UR, Edge::BR, Edge::DR, Edge::FR),
    }
}

/// A move of a valid cube gives a valid cube, and keeps the sums of twists
/// and of flips as they are modulo 3 and 2.
pub proof fn lemma_move_cube(c: CubeState, m: Move)
    requires
        c.valid(),
    ensures
        move_cube(c, m).valid(),
        twist_total(move_cube(c, m).corners.ori) % 3 == twist_total(c.corners.ori) % 3,
        flip_total(move_cube(c, m).edges.ori) % 2 == flip_total(c.edges.ori) % 2,
{
    lemma_turn_corners_times_valid(c.corners, m.face_spec(), m.turns_spec());
    lemma_turn_edges_times_valid(c.edges, m.face_spec(), m.turns_spec());
    lemma_turn_corners_times_twist_total(c.corners, m.face_spec(), m.turns_spec());
    lemma_turn_edges_times_flip_total(c.edges, m.face_spec(), m.turns_spec());
}

/// In every cube that a sequence of moves makes of the solved cube, the
/// corner twists sum to a multiple of 3 and the edge flips to an even number.
pub proof fn lemma_moves_keep_balance(ms: Seq<Move>)
    ensures
        apply_moves(CubeState::solved(), ms).valid(),
        apply_moves(CubeState::solved(), ms).balanced(),
    decreases ms.len(),
{
    if ms.len() == 0 {
        crate::cubies::lemma_pigeonhole(CubieState::solved(8).perm, 8);
        crate::cubies::lemma_pigeonhole(CubieState::solved(12).perm, 12);
    } else {
        lemma_moves_keep_balance(ms.drop_last());
        lemma_move_cube(apply_moves(CubeState::solved(), ms.drop_last()), ms.last());
    }
}

/// A move and then the move that undoes it leave a cube as it was.
pub proof fn lemma_move_cube_back(c: CubeState, m: Move)
    requires
        c.valid(),
    ensures
        move_cube(move_cube(c, m), m.inverse_spec()) == c,
{
    lemma_move_corners_back(c.corners, m);
    lemma_move_edges_back(c.edges, m);
}

/// A sequence of moves of a valid cube gives a valid cube.
pub proof fn lemma_apply_moves_valid(c: CubeState, ms: Seq<Move>)
    requires
        c.valid(),
    ensures
        apply_moves(c, ms).valid(),
    decreases ms.len(),
{
    if ms.len() > 0 {
        lemma_apply_moves_valid(c, ms.drop_last());
        lemma_move_cube(apply_moves(c, ms.drop_last()), ms.last());
    }
}

/// Making one sequence of moves and then another is making the two in a row.
pub proof fn lemma_apply_moves_in_a_row(c: CubeState, first: Seq<Move>, then: Seq<Move>)
    ensures
        apply_moves(c, first + then) == apply_moves(apply_moves(c, first), then),
    decreases then.len(),
{
    if then.len() == 0 {
        assert(first + then =~= first);
    } else {
        lemma_apply_moves_in_a_row(c, first, then.drop_last());
        assert((first + then).drop_last() =~= first + then.drop_last());
    }
}

/// A sequence of moves and then the sequence that undoes it leave a cube as
/// it was.
pub proof fn lemma_moves_back(c: CubeState, ms: Seq<Move>)
    requires
        c.valid(),
    ensures
        apply_moves(apply_moves(c, ms), undoing(ms)) == c,
    decreases ms.len(),
{
    if ms.len() > 0 {
        let before = apply_moves(c, ms.drop_last());
        let m = ms.last();
        let after = move_cube(before, m);
        let first = seq![m.inverse_spec()];
        lemma_apply_moves_valid(c, ms.drop_last());
        lemma_move_cube_back(before, m);
        lemma_apply_moves_in_a_row(after, first, undoing(ms.drop_last()));
        assert(first.drop_last() =~= Seq::<Move>::empty());
        assert(apply_moves(after, first) == move_cube(apply_moves(after, first.drop_last()),
            m.inverse_spec()));
        assert(apply_moves(after, first) == before);
        lemma_moves_back(c, ms.drop_last());
    }
}

/// A 3x3 cube.
#[derive(Clone, Copy, Debug, PartialEq, Eq)]
pub struct Cube {
    pub corners: Corners,
    pub edges: Edges,
}

impl View for Cube {
    type V = CubeState;

    open spec fn view(&self) -> CubeState {
        CubeState { corners: self.corners@, edges: self.edges@ }
    }
}

impl Default for Cube {
    fn default() -> (c: Cube)
        ensures
            c@ == CubeState::solved(),
            c.wf(),
    {
        Cube { corners: Corners::default(), edges: Edges::default() }
    }
}

impl Cube {
    /// Eight different corners with twists below 3, twelve different edges
    /// with flips below 2.
    pub open spec fn wf(&self) -> bool {
        self@.valid()
    }

    /// The solved cube.
    pub fn new() -> (c: Cube)
        ensures
            c@ == CubeState::solved(),
            c.wf(),
            c@.balanced(),
    {
        Cube { corners: Corners::new(), edges: Edges::new() }
    }

    /// The solved cube.
    pub fn new_default() -> (c: Cube)
        ensures
            c@ == CubeState::solved(),
            c.wf(),
            c@.balanced(),
    {
        Cube::new()
    }

    /// The cube that the moves make of the solved cube, the first move
    /// first.
    pub fn from_shuffle_sequence(shuffle_sequence: &Vec<Move>) -> (c: Cube)
        ensures
            c@ == apply_moves(CubeState::solved(), shuffle_sequence@),
            c.wf(),
            c@.balanced(),
    {
        let mut cube = Cube::new();
        let n = shuffle_sequence.len();
        let mut i: usize = 0;
        assert(shuffle_sequence@.take(0) =~= Seq::empty());
        while i < n
            invariant
                i <= n,
                n == shuffle_sequence@.len(),
                cube.wf(),
                cube@.balanced(),
                cube@ == apply_moves(CubeState::solved(), shuffle_sequence@.take(i as int)),
            decreases n - i,
        {
            cube.apply_move(shuffle_sequence[i]);
            assert(shuffle_sequence@.take(i + 1).drop_last() =~= shuffle_sequence@.take(i as int));
            i += 1;
        }
        assert(shuffle_sequence@.take(n as int) =~= shuffle_sequence@);
        cube
    }

    /// Whether the corners and the edges are well formed.
    pub fn is_well_formed(&self) -> (b: bool)
        ensures
            b == self.wf(),
    {
        self.corners.is_well_formed() && self.edges.is_well_formed()
    }

    /// Whether the cube is the solved cube.
    pub fn is_solved(&self) -> (b: bool)
        ensures
            b == (self@ == CubeState::solved()),
    {
        self.corners.is_solved() && self.edges.is_solved()
    }

    /// One of the 18 face turns: a half turn is two quarter turns.
    pub fn apply_move(&mut self, m: Move)
        requires
            old(self).wf(),
        ensures
            final(self)@ == move_cube(old(self)@, m),
            final(self).wf(),
            twist_total(final(self)@.corners.ori) % 3 == twist_total(old(self)@.corners.ori) % 3,
            flip_total(final(self)@.edges.ori) % 2 == flip_total(old(self)@.edges.ori) % 2,
    {
        proof {
            lemma_turn_corners_times_add(self@.corners, m.face_spec(), 1, 1);
            lemma_turn_edges_times_add(self@.edges, m.face_spec(), 1, 1);
        }
        match m {
            Move::Front => self.apply_cube_move(CubeMove::Front),
            Move::FrontPrime => self.apply_cube_move(CubeMove::FrontPrime),
            Move::Front2 => {
                self.apply_cube_move(CubeMove::Front);
                self.apply_cube_move(CubeMove::Front);
            },
            Move::Right => self.apply_cube_move(CubeMove::Right),
            Move::RightPrime => self.apply_cube_move(CubeMove::RightPrime),
            Move::Right2 => {
                self.apply_cube_move(CubeMove::Right);
                self.apply_cube_move(CubeMove::Right);
            },
            Move::Up => self.apply_cube_move(CubeMove::Up),
            Move::UpPrime => self.apply_cube_move(CubeMove::UpPrime),
            Move::Up2 => {
                self.apply_cube_move(CubeMove::Up);
                self.apply_cube_move(CubeMove::Up);
            },
            Move::Back => self.apply_cube_move(CubeMove::Back),
            Move::BackPrime => self.apply_cube_move(CubeMove::BackPrime),
            Move::Back2 => {
                self.apply_cube_move(CubeMove::Back);
                self.apply_cube_move(CubeMove::Back);
            },
            Move::Left => self.apply_cube_move(CubeMove::Left),
            Move::LeftPrime => self.apply_cube_move(CubeMove::LeftPrime),
            Move::Left2 => {
                self.apply_cube_move(CubeMove::Left);
                self.apply_cube_move(CubeMove::Left);
            },
            Move::Down => self.apply_cube_move(CubeMove::Down),
            Move::DownPrime => self.apply_cube_move(CubeMove::DownPrime),
            Move::Down2 => {
                self.apply_cube_move(CubeMove::Down);
                self.apply_cube_move(CubeMove::Down);
            },
        }
    }

    /// A quarter turn of one face, on the corners and on the edges.
    pub fn apply_cube_move(&mut self, m: CubeMove)
        requires
            old(self).wf(),
        ensures
            final(self)@.corners == crate::corners::turn_corners_times(
                old(self)@.corners,
                m.face_spec(),
                m.turns_spec(),
            ),
            final(self)@.edges == crate::edges::turn_edges_times(
                old(self)@.edges,
                m.face_spec(),
                m.turns_spec(),
            ),
            final(self).wf(),
            twist_total(final(self)@.corners.ori) % 3 == twist_total(old(self)@.corners.ori) % 3,
            flip_total(final(self)@.edges.ori) % 2 == flip_total(old(self)@.edges.ori) % 2,
    {
        self.corners.apply_move(m);
        self.edges.apply_move(m);
    }

    /// A face turn on the corners alone.
    pub fn corners_multiply(&mut self, m: Move)
        requires
            old(self).wf(),
        ensures
            final(self)@.corners == move_corners(old(self)@.corners, m),
            final(self)@.edges == old(self)@.edges,
            final(self).wf(),
    {
        self.corners.multiply(m);
    }

    /// A face turn on the edges alone.
    pub fn edges_multiply(&mut self, m: Move)
        requires
            old(self).wf(),
        ensures
            final(self)@.edges == move_edges(old(self)@.edges, m),
            final(self)@.corners == old(self)@.corners,
            final(self).wf(),
    {
        self.edges.multiply(m);
    }

    /// The colour that the corner position `place` shows on the side `face`.
    pub open spec fn corner_sticker(&self, place: Corner, face: Face) -> Face {
        self.corners.permutations[place.number()].shown(
            place,
            self.corners.orientations[place.number()],
            face,
        )
    }

    /// The colour that the edge position `place` shows on the side `face`.
    pub open spec fn edge_sticker(&self, place: Edge, face: Face) -> Face {
        self.edges.permutations[place.number()].shown(
            place,
            self.edges.orientations[place.number()],
            face,
        )
    }

    /// The nine colours of a side, row by row.
    pub open spec fn stickers(&self, face: Face) -> Seq<Face> {
        let (c0, c1, c2, c3) = corner_places(face);
        let (e0, e1, e2, e3) = edge_places(face);
        seq![
            self.corner_sticker(c0, face),
            self.edge_sticker(e0, face),
            self.corner_sticker(c1, face),
            self.edge_sticker(e3, face),
            face,
            self.edge_sticker(e1, face),
            self.corner_sticker(c3, face),
            self.edge_sticker(e2, face),
            self.corner_sticker(c2, face),
        ]
    }

    /// The colour that a corner position shows on a side.
    fn corner_face(&self, place: Corner, face: Face) -> (shown: Face)
        ensures
            shown == self.corner_sticker(place, face),
    {
        let at = usize::from(place);
        self.corners.permutations[at].get_face(place, self.corners.orientations[at], face)
    }

    /// The colour that an edge position shows on a side.
    fn edge_face(&self, place: Edge, face: Face) -> (shown: Face)
        ensures
            shown == self.edge_sticker(place, face),
    {
        let at = usize::from(place);
        self.edges.permutations[at].get_face(place, self.edges.orientations[at], face)
    }

    /// The nine colours of a side, row by row.
    pub fn face(&self, face: Face) -> (shown: [Face; 9])
        ensures
            shown@ == self.stickers(face),
    {
        let corners = match face {
            Face::F => [Corner::UFL, Corner::URF, Corner::DFR, Corner::DLF],
            Face::B => [Corner::UBR, Corner::ULB, Corner::DBL, Corner::DRB],
            Face::U => [Corner::ULB, Corner::UBR, Corner::URF, Corner::UFL],
            Face::D => [Corner::DLF, Corner::DFR, Corner::DRB, Corner::DBL],
            Face::L => [Corner::ULB, Corner::UFL, Corner::DLF, Corner::DBL],
            Face::R => [Corner::URF, Corner::UBR, Corner::DRB, Corner::DFR],
        };
        let mut corner_faces: [Face; 4] = [Face::F; 4];
        let mut i: usize = 0;
        while i < 4
            invariant
                i <= 4,
                forall|j: int|
                    0 <= j < i ==> corner_faces@[j] == self.corner_sticker(corners@[j], face),
            decreases 4 - i,
        {
            corner_faces[i] = self.corner_face(corners[i], face);
            i += 1;
        }
        let edges = match face {
            Face::F => [Edge::UF, Edge::FR, Edge::DF, Edge::FL],
            Face::B => [Edge::UB, Edge::BL, Edge::DB, Edge::BR],
            Face::U => [Edge::UB, Edge::UR, Edge::UF, Edge::UL],
            Face::D => [Edge::DF, Edge::DR, Edge::DB, Edge::DL],
            Face::L => [Edge::UL, Edge::FL, Edge::DL, Edge::BL],
            Face::R => [Edge::UR, Edge::BR, Edge::DR, Edge::FR],
        };
        let mut edge_faces: [Face; 4] = [Face::F; 4];
        let mut i: usize = 0;
        while i < 4
            invariant
                i <= 4,
                forall|j: int| 0 <= j < i ==> edge_faces@[j] == self.edge_sticker(edges@[j], face),
            decreases 4 - i,
        {
            edge_faces[i] = self.edge_face(edges[i], face);
            i += 1;
        }
        let shown = [
            corner_faces[0],
            edge_faces[0],
            corner_faces[1],
            edge_faces[3],
            face,
            edge_faces[1],
            corner_faces[3],
            edge_faces[2],
            corner_faces[2],
        ];
        assert(shown@ =~= self.stickers(face));
        shown
    }

    /// The twist coordinate.
    pub fn twist(&self) -> (x: u32)
        requires
            self.wf(),
        ensures
            x == twist_rank(self@.corners.ori),
            x < NB_TWIST,
    {
        self.corners.twist()
    }

    /// Twists the corners so that the twist coordinate is `x`.
    pub fn set_twist(&mut self, x: u32)
        requires
            old(self).wf(),
            x < NB_TWIST,
        ensures
            final(self)@.corners.perm == old(self)@.corners.perm,
            final(self)@.corners.ori == twist_unrank(x as int),
            final(self)@.edges == old(self)@.edges,
            final(self).wf(),
            twist_rank(final(self)@.corners.ori) == x,
    {
        self.corners.set_twist(x);
    }

    /// The flip coordinate.
    pub fn flip(&self) -> (x: u32)
        requires
            self.wf(),
        ensures
            x == flip_rank(self@.edges.ori),
            x < NB_FLIP,
    {
        self.edges.flip()
    }

    /// Flips the edges so that the flip coordinate is `x`.
    pub fn set_flip(&mut self, x: u32)
        requires
            old(self).wf(),
            x < NB_FLIP,
        ensures
            final(self)@.edges.perm == old(self)@.edges.perm,
            final(self)@.edges.ori == flip_unrank(x as int),
            final(self)@.corners == old(self)@.corners,
            final(self).wf(),
            flip_rank(final(self)@.edges.ori) == x,
    {
        self.edges.set_flip(x);
    }

    /// The parity of the corner arrangement.
    pub fn corner_parity(&self) -> (p: u32)
        ensures
            p == corner_parity_of(self@.corners.perm),
            p < NB_PARITY,
    {
        self.corners.corner_parity()
    }

    /// The coordinate of the six corners URF to DLF.
    pub fn urf_to_dlf(&self) -> (x: u32)
        requires
            self.wf(),
        ensures
            x == urf_to_dlf_rank(self@.corners.perm),
            x < NB_URF_TO_DLF,
    {
        self.corners.urf_to_dlf()
    }

    /// Puts the corners so that the coordinate of URF to DLF is `x`.
    pub fn set_urf_to_dlf(&mut self, x: u32)
        requires
            old(self).wf(),
            x < NB_URF_TO_DLF,
        ensures
            final(self)@.corners.perm == urf_to_dlf_unrank(x as nat),
            final(self)@.corners.ori == old(self)@.corners.ori,
            final(self)@.edges == old(self)@.edges,
            final(self).wf(),
            urf_to_dlf_rank(final(self)@.corners.perm) == x,
    {
        self.corners.set_urf_to_dlf(x);
    }

    /// The coordinate of the four middle-slice edges FR to BR.
    pub fn fr_to_br(&self) -> (x: u32)
        requires
            self.wf(),
        ensures
            x == fr_to_br_rank(self@.edges.perm),
            x < NB_FR_TO_BR,
    {
        self.edges.fr_to_br()
    }

    /// Puts the edges so that the coordinate of FR to BR is `x`.
    pub fn set_fr_to_br(&mut self, x: u32)
        requires
            old(self).wf(),
            x < NB_FR_TO_BR,
        ensures
            final(self)@.edges.perm == fr_to_br_unrank(x as nat),
            final(self)@.edges.ori == old(self)@.edges.ori,
            final(self)@.corners == old(self)@.corners,
            final(self).wf(),
            fr_to_br_rank(final(self)@.edges.perm) == x,
    {
        self.edges.set_fr_to_br(x);
    }

    /// The coordinate of the three edges UR to UL.
    pub fn ur_to_ul(&self) -> (x: u32)
        requires
            self.wf(),
        ensures
            x == ur_to_ul_rank(self@.edges.perm),
            x < NB_UR_TO_UL,
    {
        self.edges.ur_to_ul()
    }

    /// Puts the edges so that the coordinate of UR to UL is `x`.
    pub fn set_ur_to_ul(&mut self, x: u32)
        requires
            old(self).wf(),
            x < NB_UR_TO_UL,
        ensures
            final(self)@.edges.perm == ur_to_ul_unrank(x as nat),
            final(self)@.edges.ori == old(self)@.edges.ori,
            final(self)@.corners == old(self)@.corners,
            final(self).wf(),
            ur_to_ul_rank(final(self)@.edges.perm) == x,
    {
        self.edges.set_ur_to_ul(x);
    }

    /// The coordinate of the three edges UB to DF.
    pub fn ub_to_df(&self) -> (x: u32)
        requires
            self.wf(),
        ensures
            x == ub_to_df_rank(self@.edges.perm),
            x < NB_UB_TO_DF,
    {
        self.edges.ub_to_df()
    }

    /// Puts the edges so that the coordinate of UB to DF is `x`.
    pub fn set_ub_to_df(&mut self, x: u32)
        requires
            old(self).wf(),
            x < NB_UB_TO_DF,
        ensures
            final(self)@.edges.perm == ub_to_df_unrank(x as nat),
            final(self)@.edges.ori == old(self)@.edges.ori,
            final(self)@.corners == old(self)@.corners,
            final(self).wf(),
            ub_to_df_rank(final(self)@.edges.perm) == x,
    {
        self.edges.set_ub_to_df(x);
    }

    /// The coordinate of the six edges UR to DF.
    pub fn ur_to_df(&self) -> (x: u32)
        requires
            self.wf(),
        ensures
            x == ur_to_df_rank(self@.edges.perm),
            x < NB_UR_TO_DF_ANYWHERE,
    {
        self.edges.ur_to_df()
    }

    /// Puts the edges so that the coordinate of UR to DF is `x`.
    pub fn set_ur_to_df(&mut self, x: u32)
        requires
            old(self).wf(),
            x < NB_UR_TO_DF_ANYWHERE,
        ensures
            final(self)@.edges.perm == ur_to_df_unrank(x as nat),
            final(self)@.edges.ori == old(self)@.edges.ori,
            final(self)@.corners == old(self)@.corners,
            final(self).wf(),
            ur_to_df_rank(final(self)@.edges.perm) == x,
    {
        self.edges.set_ur_to_df(x);
    }

    /// The coordinate of the edges UR to DF of a cube whose coordinate of the
    /// edges UR to UL is `ur_to_ul` and whose coordinate of the edges UB to DF
    /// is `ub_to_df`, or -1 where the two put two edges at one position.
    pub fn ur_to_uf_standalone(ur_to_ul: u32, ub_to_df: u32) -> (r: i16)
        requires
            ur_to_ul < NB_MERGE,
            ub_to_df < NB_MERGE,
        ensures
            r == merged_rank(ur_to_ul as nat, ub_to_df as nat),
            r == INVALID <==> overlapping(ur_to_ul as nat, ub_to_df as nat),
            r != INVALID ==> 0 <= r < NB_UR_TO_DF,
    {
        merge_ur_to_df(ur_to_ul, ub_to_df)
    }
}

} // verus!
