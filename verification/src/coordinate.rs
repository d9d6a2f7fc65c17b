//! The coordinates of a cube and the tables that a two-phase search reads:
//! one move table for each kind of coordinate, the table that merges two
//! edge coordinates into one, and the pruning table.

use vstd::prelude::*;
use crate::corners::{
    corner_parity_of, lemma_four_corner_turns, lemma_turn_corners_times_add, move_corners, NB_TWIST,
    NB_URF_TO_DLF, turn_corners_times, twist_rank, twist_unrank, urf_to_dlf_rank, urf_to_dlf_unrank,
};
use crate::cube::Cube;
use crate::cubies::CubieState;
use crate::edges::{
    flip_rank, flip_unrank, fr_to_br_rank, fr_to_br_unrank, lemma_four_edge_turns,
    lemma_turn_edges_times_add, move_edges, NB_FLIP, NB_FR_TO_BR, NB_UB_TO_DF, NB_UR_TO_DF,
    NB_UR_TO_UL, turn_edges_times, ub_to_df_rank, ub_to_df_unrank, ur_to_df_rank, ur_to_df_unrank,
    ur_to_ul_rank, ur_to_ul_unrank,
};
use crate::face::Face;
use crate::laws::{lemma_slice_step, lemma_step_in_span};
use crate::merge::{build_merge_table, is_merge_table, NB_MERGE};
use crate::moves::Move;
use crate::pruning::{
    fill_pruning, keeps_slice_index, MAX_DEPTH, NB_PRUNING, NB_PRUNING_BYTES, nibble, Transitions,
    UNVISITED,
};

verus! {

/// The kinds of coordinate that have a move table built by turning a cube.
#[derive(Clone, Copy, Debug, PartialEq, Eq, Structural)]
pub enum CoordinateKind {
    Twist,
    Flip,
    FrToBr,
    UrfToDlf,
    UrToUl,
    UbToDf,
    UrToDf,
}

/// The number of rows of the move table of a kind of coordinate.
pub open spec fn domain(kind: CoordinateKind) -> int {
    match kind {
        CoordinateKind::Twist => NB_TWIST as int,
        CoordinateKind::Flip => NB_FLIP as int,
        CoordinateKind::FrToBr => NB_FR_TO_BR as int,
        CoordinateKind::UrfToDlf => NB_URF_TO_DLF as int,
        CoordinateKind::UrToUl => NB_UR_TO_UL as int,
        CoordinateKind::UbToDf => NB_UB_TO_DF as int,
        CoordinateKind::UrToDf => NB_UR_TO_DF as int,
    }
}

/// The corners or the edges of a solved cube once the coordinate of the
/// given kind is set to `x`.
pub open spec fn start_state(kind: CoordinateKind, x: int) -> CubieState {
    match kind {
        CoordinateKind::Twist => CubieState {
            perm: CubieState::solved(8).perm,
            ori: twist_unrank(x),
        },
        CoordinateKind::Flip => CubieState {
            perm: CubieState::solved(12).perm,
            ori: flip_unrank(x),
        },
        CoordinateKind::FrToBr => CubieState {
            perm: fr_to_br_unrank(x as nat),
            ori: CubieState::solved(12).ori,
        },
        CoordinateKind::UrfToDlf => CubieState {
            perm: urf_to_dlf_unrank(x as nat),
            ori: CubieState::solved(8).ori,
        },
        CoordinateKind::UrToUl => CubieState {
            perm: ur_to_ul_unrank(x as nat),
            ori: CubieState::solved(12).ori,
        },
        CoordinateKind::UbToDf => CubieState {
            perm: ub_to_df_unrank(x as nat),
            ori: CubieState::solved(12).ori,
        },
        CoordinateKind::UrToDf => CubieState {
            perm: ur_to_df_unrank(x as nat),
            ori: CubieState::solved(12).ori,
        },
    }
}

/// The coordinate of the given kind of the corners or the edges `c`.
pub open spec fn rank(kind: CoordinateKind, c: CubieState) -> int {
    match kind {
        CoordinateKind::Twist => twist_rank(c.ori),
        CoordinateKind::Flip => flip_rank(c.ori),
        CoordinateKind::FrToBr => fr_to_br_rank(c.perm) as int,
        CoordinateKind::UrfToDlf => urf_to_dlf_rank(c.perm) as int,
        CoordinateKind::UrToUl => ur_to_ul_rank(c.perm) as int,
        CoordinateKind::UbToDf => ub_to_df_rank(c.perm) as int,
        CoordinateKind::UrToDf => ur_to_df_rank(c.perm) as int,
    }
}

/// The corners or the edges `c` after the move `m`, for the given kind of
/// coordinate.
pub open spec fn moved(kind: CoordinateKind, c: CubieState, m: Move) -> CubieState {
    match kind {
        CoordinateKind::Twist | CoordinateKind::UrfToDlf => move_corners(c, m),
        _ => move_edges(c, m),
    }
}

/// The coordinate that the move `m` leads to from the coordinate `x`: the
/// cube is put at `x`, moved, and read.
pub open spec fn step(kind: CoordinateKind, x: int, m: Move) -> int {
    rank(kind, moved(kind, start_state(kind, x), m))
}

/// Whether `table` is the move table of the given kind of coordinate: one
/// row for each value, one column for each move.
pub open spec fn is_move_table(table: Seq<[u32; 18]>, kind: CoordinateKind) -> bool {
    &&& table.len() == domain(kind)
    &&& forall|x: int, y: int|
        0 <= x < domain(kind) && 0 <= y < 18 ==> #[trigger] table[x][y] == step(
            kind,
            x,
            Move::of_index(y),
        )
}

/// The move of a column of a move table turns the face of the column's axis
/// once, twice or three times.
pub proof fn lemma_column(y: int, z: int)
    requires
        0 <= y < 6,
        0 <= z < 3,
    ensures
        Move::of_index(3 * y + z).face_spec() == Face::of_axis(y),
        Move::of_index(3 * y + z).turns_spec() == z + 1,
        Move::of_index(3 * y + z).index_spec() == 3 * y + z,
{
}

/// The parity after each move: a quarter turn changes it, a half turn does
/// not.
pub open spec fn parity_step(p: int, y: int) -> int {
    if y % 3 == 1 {
        p
    } else {
        1 - p
    }
}

/// The coordinates of a cube, and the tables.
pub struct Coordinate {
    /// The twist coordinate of the cube.
    pub twist: u32,
    /// The flip coordinate of the cube.
    pub flip: u32,
    /// The parity of the cube's corner arrangement.
    pub parity: u32,
    /// The cube's coordinate of the edges FR to BR.
    pub fr_to_br: u32,
    /// The cube's coordinate of the corners URF to DLF.
    pub urf_to_dlf: u32,
    /// The cube's coordinate of the edges UR to UL.
    pub ur_to_ul: u32,
    /// The cube's coordinate of the edges UB to DF.
    pub ub_to_df: u32,
    /// The cube's coordinate of the edges UR to DF.
    pub ur_to_df: u32,
    /// The move table of the twist coordinate: 2187 rows.
    pub twist_move: Vec<[u32; 18]>,
    /// The move table of the flip coordinate: 2048 rows.
    pub flip_move: Vec<[u32; 18]>,
    /// The move table of the parity.
    pub parity_move: [[u8; 18]; 2],
    /// The move table of the edges FR to BR: 11880 rows.
    pub fr_to_br_move: Vec<[u32; 18]>,
    /// The move table of the corners URF to DLF: 20160 rows.
    pub urf_to_dlf_move: Vec<[u32; 18]>,
    /// The move table of the edges UR to UL: 1320 rows.
    pub ur_to_ul_move: Vec<[u32; 18]>,
    /// The move table of the edges UB to DF: 1320 rows.
    pub ub_to_df_move: Vec<[u32; 18]>,
    /// The move table of the edges UR to DF, for the 20160 values at which
    /// the six edges sit outside the middle slice. Its entries in the
    /// columns of moves that do not keep the slice may be greater.
    pub ur_to_df_move: Vec<[u32; 18]>,
    /// The merge table: 336 rows of 336 entries.
    pub merge_ur_to_ul_and_ub_to_df: Vec<[i16; 336]>,
    /// The pruning table: 967680 entries of four bits, two in a byte.
    pub urf_to_dlf_parity_prun: Vec<u8>,
}

/// Whether every entry of a table is 0.
pub open spec fn is_zero_table(table: Seq<[u32; 18]>) -> bool {
    forall|x: int, y: int| 0 <= x < table.len() && 0 <= y < 18 ==> #[trigger] table[x][y] == 0
}

/// A table of `rows` rows of zeros.
pub fn zero_table(rows: usize) -> (table: Vec<[u32; 18]>)
    ensures
        table@.len() == rows,
        is_zero_table(table@),
{
    let mut table: Vec<[u32; 18]> = Vec::new();
    let mut i: usize = 0;
    while i < rows
        invariant
            i <= rows,
            table@.len() == i,
            forall|x: int, y: int| 0 <= x < i && 0 <= y < 18 ==> #[trigger] table@[x][y] == 0,
        decreases rows - i,
    {
        table.push([0; 18]);
        i += 1;
    }
    table
}

impl Coordinate {
    /// Every table has the number of rows of its kind.
    pub open spec fn wf(&self) -> bool {
        &&& self.twist_move@.len() == NB_TWIST
        &&& self.flip_move@.len() == NB_FLIP
        &&& self.fr_to_br_move@.len() == NB_FR_TO_BR
        &&& self.urf_to_dlf_move@.len() == NB_URF_TO_DLF
        &&& self.ur_to_ul_move@.len() == NB_UR_TO_UL
        &&& self.ub_to_df_move@.len() == NB_UB_TO_DF
        &&& self.ur_to_df_move@.len() == NB_UR_TO_DF
        &&& self.merge_ur_to_ul_and_ub_to_df@.len() == NB_MERGE
        &&& self.urf_to_dlf_parity_prun@.len() == NB_PRUNING_BYTES
        &&& forall|p: int, y: int|
            0 <= p < 2 && 0 <= y < 18 ==> #[trigger] self.parity_move@[p][y] == parity_step(p, y)
    }

    /// Whether every table has the number of rows of its kind and the parity
    /// table is the one of the cube.
    pub fn is_well_formed(&self) -> (b: bool)
        ensures
            b == self.wf(),
    {
        if !(self.twist_move.len() == NB_TWIST && self.flip_move.len() == NB_FLIP
            && self.fr_to_br_move.len() == NB_FR_TO_BR && self.urf_to_dlf_move.len()
            == NB_URF_TO_DLF && self.ur_to_ul_move.len() == NB_UR_TO_UL && self.ub_to_df_move.len()
            == NB_UB_TO_DF && self.ur_to_df_move.len() == NB_UR_TO_DF
            && self.merge_ur_to_ul_and_ub_to_df.len() == NB_MERGE
            && self.urf_to_dlf_parity_prun.len() == NB_PRUNING_BYTES) {
            return false;
        }
        let mut p: usize = 0;
        while p < 2
            invariant
                p <= 2,
                forall|q: int, y: int|
                    0 <= q < p && 0 <= y < 18 ==> #[trigger] self.parity_move@[q][y]
                        == parity_step(q, y),
            decreases 2 - p,
        {
            let mut y: usize = 0;
            while y < 18
                invariant
                    y <= 18,
                    p < 2,
                    forall|q: int, z: int|
                        0 <= q < p && 0 <= z < 18 ==> #[trigger] self.parity_move@[q][z]
                            == parity_step(q, z),
                    forall|z: int|
                        0 <= z < y ==> #[trigger] self.parity_move@[p as int][z] == parity_step(
                            p as int,
                            z,
                        ),
                decreases 18 - y,
            {
                let expected: u8 = if y % 3 == 1 {
                    p as u8
                } else {
                    1 - p as u8
                };
                if self.parity_move[p][y] != expected {
                    assert(self.parity_move@[p as int][y as int] != parity_step(p as int,
                        y as int));
                    return false;
                }
                y += 1;
            }
            p += 1;
        }
        true
    }

    /// The coordinates of `cube`, with tables that are not filled yet.
    pub fn from_cube(cube: &Cube) -> (c: Coordinate)
        requires
            cube.wf(),
        ensures
            c.wf(),
            c.twist == twist_rank(cube@.corners.ori),
            c.flip == flip_rank(cube@.edges.ori),
            c.parity == corner_parity_of(cube@.corners.perm),
            c.fr_to_br == fr_to_br_rank(cube@.edges.perm),
            c.urf_to_dlf == urf_to_dlf_rank(cube@.corners.perm),
            c.ur_to_ul == ur_to_ul_rank(cube@.edges.perm),
            c.ub_to_df == ub_to_df_rank(cube@.edges.perm),
            c.ur_to_df == ur_to_df_rank(cube@.edges.perm),
            is_zero_table(c.twist_move@),
            is_zero_table(c.flip_move@),
            is_zero_table(c.fr_to_br_move@),
            is_zero_table(c.urf_to_dlf_move@),
            is_zero_table(c.ur_to_ul_move@),
            is_zero_table(c.ub_to_df_move@),
            is_zero_table(c.ur_to_df_move@),
            forall|a: int, b: int|
                0 <= a < NB_MERGE && 0 <= b < NB_MERGE
                    ==> #[trigger] c.merge_ur_to_ul_and_ub_to_df@[a][b] == 0,
            forall|i: int|
                0 <= i < NB_PRUNING_BYTES ==> #[trigger] c.urf_to_dlf_parity_prun@[i] == 0,
    {
        let mut merge: Vec<[i16; 336]> = Vec::new();
        let mut i: usize = 0;
        while i < NB_MERGE
            invariant
                i <= NB_MERGE,
                merge@.len() == i,
                forall|a: int, b: int|
                    0 <= a < i && 0 <= b < NB_MERGE ==> #[trigger] merge@[a][b] == 0,
            decreases NB_MERGE - i,
        {
            merge.push([0; 336]);
            i += 1;
        }
        let mut prun: Vec<u8> = Vec::new();
        let mut i: usize = 0;
        while i < NB_PRUNING_BYTES
            invariant
                i <= NB_PRUNING_BYTES,
                prun@.len() == i,
                forall|j: int| 0 <= j < i ==> #[trigger] prun@[j] == 0,
            decreases NB_PRUNING_BYTES - i,
        {
            prun.push(0);
            i += 1;
        }
        Coordinate {
            twist: cube.twist(),
            flip: cube.flip(),
            parity: cube.corner_parity(),
            fr_to_br: cube.fr_to_br(),
            urf_to_dlf: cube.urf_to_dlf(),
            ur_to_ul: cube.ur_to_ul(),
            ub_to_df: cube.ub_to_df(),
            ur_to_df: cube.ur_to_df(),
            twist_move: zero_table(NB_TWIST),
            flip_move: zero_table(NB_FLIP),
            parity_move: [
                [1, 0, 1, 1, 0, 1, 1, 0, 1, 1, 0, 1, 1, 0, 1, 1, 0, 1],
                [0, 1, 0, 0, 1, 0, 0, 1, 0, 0, 1, 0, 0, 1, 0, 0, 1, 0],
            ],
            fr_to_br_move: zero_table(NB_FR_TO_BR),
            urf_to_dlf_move: zero_table(NB_URF_TO_DLF),
            ur_to_ul_move: zero_table(NB_UR_TO_UL),
            ub_to_df_move: zero_table(NB_UB_TO_DF),
            ur_to_df_move: zero_table(NB_UR_TO_DF),
            merge_ur_to_ul_and_ub_to_df: merge,
            urf_to_dlf_parity_prun: prun,
        }
    }

    /// Fills the move table of the twist coordinate: for every value the cube
    /// is put at it and each face is turned four times; the coordinate after
    /// the first three turns goes into the table, the fourth brings the cube
    /// back.
    pub fn init_twist_move(&mut self)
        requires
            old(self).wf(),
        ensures
            final(self).wf(),
            is_move_table(final(self).twist_move@, CoordinateKind::Twist),
            *final(self) == (Coordinate { twist_move: final(self).twist_move, ..*old(self) }),
    {
        let mut solved = Cube::new_default();
        let mut x: usize = 0;
        while x < NB_TWIST
            invariant
                x <= NB_TWIST,
                self.wf(),
                solved.wf(),
                solved@.corners.perm == CubieState::solved(8).perm,
                *self == (Coordinate { twist_move: self.twist_move, ..*old(self) }),
                forall|a: int, b: int|
                    0 <= a < x && 0 <= b < 18 ==> #[trigger] self.twist_move@[a][b] == step(
                        CoordinateKind::Twist,
                        a,
                        Move::of_index(b),
                    ),
            decreases NB_TWIST - x,
        {
            solved.set_twist(x as u32);
            let ghost start = solved@.corners;
            assert(start == start_state(CoordinateKind::Twist, x as int));
            let mut row: [u32; 18] = [0; 18];
            let mut y: usize = 0;
            while y < 6
                invariant
                    y <= 6,
                    x < NB_TWIST,
                    solved.wf(),
                    solved@.corners == start,
                    start == start_state(CoordinateKind::Twist, x as int),
                    forall|b: int|
                        0 <= b < 3 * y ==> #[trigger] row@[b] == step(
                            CoordinateKind::Twist,
                            x as int,
                            Move::of_index(b),
                        ),
                decreases 6 - y,
            {
                let quarter = Move::from_u(y);
                let ghost f = Face::of_axis(y as int);
                let mut z: usize = 0;
                assert(turn_corners_times(start, f, 0) == start);
                while z < 3
                    invariant
                        z <= 3,
                        y < 6,
                        x < NB_TWIST,
                        solved.wf(),
                        start.valid(8, 3),
                        f == Face::of_axis(y as int),
                        quarter.face_spec() == f,
                        quarter.turns_spec() == 1,
                        solved@.corners == turn_corners_times(start, f, z as nat),
                        start == start_state(CoordinateKind::Twist, x as int),
                        forall|b: int|
                            0 <= b < 3 * y + z ==> #[trigger] row@[b] == step(
                                CoordinateKind::Twist,
                                x as int,
                                Move::of_index(b),
                            ),
                    decreases 3 - z,
                {
                    proof {
                        lemma_turn_corners_times_add(start, f, z as nat, 1);
                        lemma_column(y as int, z as int);
                    }
                    solved.corners_multiply(quarter);
                    row[3 * y + z] = solved.twist();
                    z += 1;
                }
                proof {
                    lemma_turn_corners_times_add(start, f, 3, 1);
                    lemma_four_corner_turns(start, f);
                }
                solved.corners_multiply(quarter);
                y += 1;
            }
            self.twist_move.set(x, row);
            x += 1;
        }
    }

    /// Fills the move table of the flip coordinate: for every value the cube is
    /// put at it and each face is turned four times; the coordinate after
    /// the first three turns goes into the table, the fourth brings the cube
    /// back.
    pub fn init_flip_move(&mut self)
        requires
            old(self).wf(),
        ensures
            final(self).wf(),
            is_move_table(final(self).flip_move@, CoordinateKind::Flip),
            *final(self) == (Coordinate { flip_move: final(self).flip_move, ..*old(self) }),
    {
        let mut solved = Cube::new_default();
        let mut x: usize = 0;
        while x < NB_FLIP
            invariant
                x <= NB_FLIP,
                self.wf(),
                solved.wf(),
                solved@.edges.perm == CubieState::solved(12).perm,
                *self == (Coordinate { flip_move: self.flip_move, ..*old(self) }),
                forall|a: int, b: int|
                    0 <= a < x && 0 <= b < 18 ==> #[trigger] self.flip_move@[a][b] == step(
                        CoordinateKind::Flip,
                        a,
                        Move::of_index(b),
                    ),
            decreases NB_FLIP - x,
        {
            solved.set_flip(x as u32);
            let ghost start = solved@.edges;
            assert(start == start_state(CoordinateKind::Flip, x as int));
            let mut row: [u32; 18] = [0; 18];
            let mut y: usize = 0;
            while y < 6
                invariant
                    y <= 6,
                    x < NB_FLIP,
                    solved.wf(),
                    solved@.edges == start,
                    start == start_state(CoordinateKind::Flip, x as int),
                    forall|b: int|
                        0 <= b < 3 * y ==> #[trigger] row@[b] == step(
                            CoordinateKind::Flip,
                            x as int,
                            Move::of_index(b),
                        ),
                decreases 6 - y,
            {
                let quarter = Move::from_u(y);
                let ghost f = Face::of_axis(y as int);
                let mut z: usize = 0;
                assert(turn_edges_times(start, f, 0) == start);
                while z < 3
                    invariant
                        z <= 3,
                        y < 6,
                        x < NB_FLIP,
                        solved.wf(),
                        start.valid(12, 2),
                        f == Face::of_axis(y as int),
                        quarter.face_spec() == f,
                        quarter.turns_spec() == 1,
                        solved@.edges == turn_edges_times(start, f, z as nat),
                        start == start_state(CoordinateKind::Flip, x as int),
                        forall|b: int|
                            0 <= b < 3 * y + z ==> #[trigger] row@[b] == step(
                                CoordinateKind::Flip,
                                x as int,
                                Move::of_index(b),
                            ),
                    decreases 3 - z,
                {
                    proof {
                        lemma_turn_edges_times_add(start, f, z as nat, 1);
                        lemma_column(y as int, z as int);
                    }
                    solved.edges_multiply(quarter);
                    row[3 * y + z] = solved.flip();
                    z += 1;
                }
                proof {
                    lemma_turn_edges_times_add(start, f, 3, 1);
                    lemma_four_edge_turns(start, f);
                }
                solved.edges_multiply(quarter);
                y += 1;
            }
            self.flip_move.set(x, row);
            x += 1;
        }
    }

    /// Fills the move table of the coordinate of the edges FR to BR: for every
    /// value the cube is put at it and each face is turned four times; the
    /// coordinate after the first three turns goes into the table, the fourth
    /// brings the cube back.
    pub fn init_fr_to_br_move(&mut self)
        requires
            old(self).wf(),
        ensures
            final(self).wf(),
            is_move_table(final(self).fr_to_br_move@, CoordinateKind::FrToBr),
            *final(self) == (Coordinate { fr_to_br_move: final(self).fr_to_br_move, ..*old(self) }),
    {
        let mut solved = Cube::new_default();
        let mut x: usize = 0;
        while x < NB_FR_TO_BR
            invariant
                x <= NB_FR_TO_BR,
                self.wf(),
                solved.wf(),
                solved@.edges.ori == CubieState::solved(12).ori,
                *self == (Coordinate { fr_to_br_move: self.fr_to_br_move, ..*old(self) }),
                forall|a: int, b: int|
                    0 <= a < x && 0 <= b < 18 ==> #[trigger] self.fr_to_br_move@[a][b] == step(
                        CoordinateKind::FrToBr,
                        a,
                        Move::of_index(b),
                    ),
            decreases NB_FR_TO_BR - x,
        {
            solved.set_fr_to_br(x as u32);
            let ghost start = solved@.edges;
            assert(start == start_state(CoordinateKind::FrToBr, x as int));
            let mut row: [u32; 18] = [0; 18];
            let mut y: usize = 0;
            while y < 6
                invariant
                    y <= 6,
                    x < NB_FR_TO_BR,
                    solved.wf(),
                    solved@.edges == start,
                    start == start_state(CoordinateKind::FrToBr, x as int),
                    forall|b: int|
                        0 <= b < 3 * y ==> #[trigger] row@[b] == step(
                            CoordinateKind::FrToBr,
                            x as int,
                            Move::of_index(b),
                        ),
                decreases 6 - y,
            {
                let quarter = Move::from_u(y);
                let ghost f = Face::of_axis(y as int);
                let mut z: usize = 0;
                assert(turn_edges_times(start, f, 0) == start);
                while z < 3
                    invariant
                        z <= 3,
                        y < 6,
                        x < NB_FR_TO_BR,
                        solved.wf(),
                        start.valid(12, 2),
                        f == Face::of_axis(y as int),
                        quarter.face_spec() == f,
                        quarter.turns_spec() == 1,
                        solved@.edges == turn_edges_times(start, f, z as nat),
                        start == start_state(CoordinateKind::FrToBr, x as int),
                        forall|b: int|
                            0 <= b < 3 * y + z ==> #[trigger] row@[b] == step(
                                CoordinateKind::FrToBr,
                                x as int,
                                Move::of_index(b),
                            ),
                    decreases 3 - z,
                {
                    proof {
                        lemma_turn_edges_times_add(start, f, z as nat, 1);
                        lemma_column(y as int, z as int);
                    }
                    solved.edges_multiply(quarter);
                    row[3 * y + z] = solved.fr_to_br();
                    z += 1;
                }
                proof {
                    lemma_turn_edges_times_add(start, f, 3, 1);
                    lemma_four_edge_turns(start, f);
                }
                solved.edges_multiply(quarter);
                y += 1;
            }
            self.fr_to_br_move.set(x, row);
            x += 1;
        }
    }

    /// Fills the move table of the coordinate of the corners URF to DLF: for
    /// every value the cube is put at it and each face is turned four times;
    /// the coordinate after the first three turns goes into the table, the
    /// fourth brings the cube back.
    pub fn init_urf_to_dlf_move(&mut self)
        requires
            old(self).wf(),
        ensures
            final(self).wf(),
            is_move_table(final(self).urf_to_dlf_move@, CoordinateKind::UrfToDlf),
            *final(self) == (Coordinate { urf_to_dlf_move: final(self).urf_to_dlf_move,
                ..*old(self) }),
    {
        let mut solved = Cube::new_default();
        let mut x: usize = 0;
        while x < NB_URF_TO_DLF
            invariant
                x <= NB_URF_TO_DLF,
                self.wf(),
                solved.wf(),
                solved@.corners.ori == CubieState::solved(8).ori,
                *self == (Coordinate { urf_to_dlf_move: self.urf_to_dlf_move, ..*old(self) }),
                forall|a: int, b: int|
                    0 <= a < x && 0 <= b < 18 ==> #[trigger] self.urf_to_dlf_move@[a][b] == step(
                        CoordinateKind::UrfToDlf,
                        a,
                        Move::of_index(b),
                    ),
            decreases NB_URF_TO_DLF - x,
        {
            solved.set_urf_to_dlf(x as u32);
            let ghost start = solved@.corners;
            assert(start == start_state(CoordinateKind::UrfToDlf, x as int));
            let mut row: [u32; 18] = [0; 18];
            let mut y: usize = 0;
            while y < 6
                invariant
                    y <= 6,
                    x < NB_URF_TO_DLF,
                    solved.wf(),
                    solved@.corners == start,
                    start == start_state(CoordinateKind::UrfToDlf, x as int),
                    forall|b: int|
                        0 <= b < 3 * y ==> #[trigger] row@[b] == step(
                            CoordinateKind::UrfToDlf,
                            x as int,
                            Move::of_index(b),
                        ),
                decreases 6 - y,
            {
                let quarter = Move::from_u(y);
                let ghost f = Face::of_axis(y as int);
                let mut z: usize = 0;
                assert(turn_corners_times(start, f, 0) == start);
                while z < 3
                    invariant
                        z <= 3,
                        y < 6,
                        x < NB_URF_TO_DLF,
                        solved.wf(),
                        start.valid(8, 3),
                        f == Face::of_axis(y as int),
                        quarter.face_spec() == f,
                        quarter.turns_spec() == 1,
                        solved@.corners == turn_corners_times(start, f, z as nat),
                        start == start_state(CoordinateKind::UrfToDlf, x as int),
                        forall|b: int|
                            0 <= b < 3 * y + z ==> #[trigger] row@[b] == step(
                                CoordinateKind::UrfToDlf,
                                x as int,
                                Move::of_index(b),
                            ),
                    decreases 3 - z,
                {
                    proof {
                        lemma_turn_corners_times_add(start, f, z as nat, 1);
                        lemma_column(y as int, z as int);
                    }
                    solved.corners_multiply(quarter);
                    row[3 * y + z] = solved.urf_to_dlf();
                    z += 1;
                }
                proof {
                    lemma_turn_corners_times_add(start, f, 3, 1);
                    lemma_four_corner_turns(start, f);
                }
                solved.corners_multiply(quarter);
                y += 1;
            }
            self.urf_to_dlf_move.set(x, row);
            x += 1;
        }
    }

    /// Fills the move table of the coordinate of the edges UR to UL: for every
    /// value the cube is put at it and each face is turned four times; the
    /// coordinate after the first three turns goes into the table, the fourth
    /// brings the cube back.
    pub fn init_ur_to_ul_move(&mut self)
        requires
            old(self).wf(),
        ensures
            final(self).wf(),
            is_move_table(final(self).ur_to_ul_move@, CoordinateKind::UrToUl),
            *final(self) == (Coordinate { ur_to_ul_move: final(self).ur_to_ul_move, ..*old(self) }),
    {
        let mut solved = Cube::new_default();
        let mut x: usize = 0;
        while x < NB_UR_TO_UL
            invariant
                x <= NB_UR_TO_UL,
                self.wf(),
                solved.wf(),
                solved@.edges.ori == CubieState::solved(12).ori,
                *self == (Coordinate { ur_to_ul_move: self.ur_to_ul_move, ..*old(self) }),
                forall|a: int, b: int|
                    0 <= a < x && 0 <= b < 18 ==> #[trigger] self.ur_to_ul_move@[a][b] == step(
                        CoordinateKind::UrToUl,
                        a,
                        Move::of_index(b),
                    ),
            decreases NB_UR_TO_UL - x,
        {
            solved.set_ur_to_ul(x as u32);
            let ghost start = solved@.edges;
            assert(start == start_state(CoordinateKind::UrToUl, x as int));
            let mut row: [u32; 18] = [0; 18];
            let mut y: usize = 0;
            while y < 6
                invariant
                    y <= 6,
                    x < NB_UR_TO_UL,
                    solved.wf(),
                    solved@.edges == start,
                    start == start_state(CoordinateKind::UrToUl, x as int),
                    forall|b: int|
                        0 <= b < 3 * y ==> #[trigger] row@[b] == step(
                            CoordinateKind::UrToUl,
                            x as int,
                            Move::of_index(b),
                        ),
                decreases 6 - y,
            {
                let quarter = Move::from_u(y);
                let ghost f = Face::of_axis(y as int);
                let mut z: usize = 0;
                assert(turn_edges_times(start, f, 0) == start);
                while z < 3
                    invariant
                        z <= 3,
                        y < 6,
                        x < NB_UR_TO_UL,
                        solved.wf(),
                        start.valid(12, 2),
                        f == Face::of_axis(y as int),
                        quarter.face_spec() == f,
                        quarter.turns_spec() == 1,
                        solved@.edges == turn_edges_times(start, f, z as nat),
                        start == start_state(CoordinateKind::UrToUl, x as int),
                        forall|b: int|
                            0 <= b < 3 * y + z ==> #[trigger] row@[b] == step(
                                CoordinateKind::UrToUl,
                                x as int,
                                Move::of_index(b),
                            ),
                    decreases 3 - z,
                {
                    proof {
                        lemma_turn_edges_times_add(start, f, z as nat, 1);
                        lemma_column(y as int, z as int);
                    }
                    solved.edges_multiply(quarter);
                    row[3 * y + z] = solved.ur_to_ul();
                    z += 1;
                }
                proof {
                    lemma_turn_edges_times_add(start, f, 3, 1);
                    lemma_four_edge_turns(start, f);
                }
                solved.edges_multiply(quarter);
                y += 1;
            }
            self.ur_to_ul_move.set(x, row);
            x += 1;
        }
    }

    /// Fills the move table of the coordinate of the edges UB to DF: for every
    /// value the cube is put at it and each face is turned four times; the
    /// coordinate after the first three turns goes into the table, the fourth
    /// brings the cube back.
    pub fn init_ub_to_df_move(&mut self)
        requires
            old(self).wf(),
        ensures
            final(self).wf(),
            is_move_table(final(self).ub_to_df_move@, CoordinateKind::UbToDf),
            *final(self) == (Coordinate { ub_to_df_move: final(self).ub_to_df_move, ..*old(self) }),
    {
        let mut solved = Cube::new_default();
        let mut x: usize = 0;
        while x < NB_UB_TO_DF
            invariant
                x <= NB_UB_TO_DF,
                self.wf(),
                solved.wf(),
                solved@.edges.ori == CubieState::solved(12).ori,
                *self == (Coordinate { ub_to_df_move: self.ub_to_df_move, ..*old(self) }),
                forall|a: int, b: int|
                    0 <= a < x && 0 <= b < 18 ==> #[trigger] self.ub_to_df_move@[a][b] == step(
                        CoordinateKind::UbToDf,
                        a,
                        Move::of_index(b),
                    ),
            decreases NB_UB_TO_DF - x,
        {
            solved.set_ub_to_df(x as u32);
            let ghost start = solved@.edges;
            assert(start == start_state(CoordinateKind::UbToDf, x as int));
            let mut row: [u32; 18] = [0; 18];
            let mut y: usize = 0;
            while y < 6
                invariant
                    y <= 6,
                    x < NB_UB_TO_DF,
                    solved.wf(),
                    solved@.edges == start,
                    start == start_state(CoordinateKind::UbToDf, x as int),
                    forall|b: int|
                        0 <= b < 3 * y ==> #[trigger] row@[b] == step(
                            CoordinateKind::UbToDf,
                            x as int,
                            Move::of_index(b),
                        ),
                decreases 6 - y,
            {
                let quarter = Move::from_u(y);
                let ghost f = Face::of_axis(y as int);
                let mut z: usize = 0;
                assert(turn_edges_times(start, f, 0) == start);
                while z < 3
                    invariant
                        z <= 3,
                        y < 6,
                        x < NB_UB_TO_DF,
                        solved.wf(),
                        start.valid(12, 2),
                        f == Face::of_axis(y as int),
                        quarter.face_spec() == f,
                        quarter.turns_spec() == 1,
                        solved@.edges == turn_edges_times(start, f, z as nat),
                        start == start_state(CoordinateKind::UbToDf, x as int),
                        forall|b: int|
                            0 <= b < 3 * y + z ==> #[trigger] row@[b] == step(
                                CoordinateKind::UbToDf,
                                x as int,
                                Move::of_index(b),
                            ),
                    decreases 3 - z,
                {
                    proof {
                        lemma_turn_edges_times_add(start, f, z as nat, 1);
                        lemma_column(y as int, z as int);
                    }
                    solved.edges_multiply(quarter);
                    row[3 * y + z] = solved.ub_to_df();
                    z += 1;
                }
                proof {
                    lemma_turn_edges_times_add(start, f, 3, 1);
                    lemma_four_edge_turns(start, f);
                }
                solved.edges_multiply(quarter);
                y += 1;
            }
            self.ub_to_df_move.set(x, row);
            x += 1;
        }
    }

    /// Fills the move table of the coordinate of the edges UR to DF: for every
    /// value the cube is put at it and each face is turned four times; the
    /// coordinate after the first three turns goes into the table, the fourth
    /// brings the cube back.
    pub fn init_ur_to_df_move(&mut self)
        requires
            old(self).wf(),
        ensures
            final(self).wf(),
            is_move_table(final(self).ur_to_df_move@, CoordinateKind::UrToDf),
            *final(self) == (Coordinate { ur_to_df_move: final(self).ur_to_df_move, ..*old(self) }),
    {
        let mut solved = Cube::new_default();
        let mut x: usize = 0;
        while x < NB_UR_TO_DF
            invariant
                x <= NB_UR_TO_DF,
                self.wf(),
                solved.wf(),
                solved@.edges.ori == CubieState::solved(12).ori,
                *self == (Coordinate { ur_to_df_move: self.ur_to_df_move, ..*old(self) }),
                forall|a: int, b: int|
                    0 <= a < x && 0 <= b < 18 ==> #[trigger] self.ur_to_df_move@[a][b] == step(
                        CoordinateKind::UrToDf,
                        a,
                        Move::of_index(b),
                    ),
            decreases NB_UR_TO_DF - x,
        {
            solved.set_ur_to_df(x as u32);
            let ghost start = solved@.edges;
            assert(start == start_state(CoordinateKind::UrToDf, x as int));
            let mut row: [u32; 18] = [0; 18];
            let mut y: usize = 0;
            while y < 6
                invariant
                    y <= 6,
                    x < NB_UR_TO_DF,
                    solved.wf(),
                    solved@.edges == start,
                    start == start_state(CoordinateKind::UrToDf, x as int),
                    forall|b: int|
                        0 <= b < 3 * y ==> #[trigger] row@[b] == step(
                            CoordinateKind::UrToDf,
                            x as int,
                            Move::of_index(b),
                        ),
                decreases 6 - y,
            {
                let quarter = Move::from_u(y);
                let ghost f = Face::of_axis(y as int);
                let mut z: usize = 0;
                assert(turn_edges_times(start, f, 0) == start);
                while z < 3
                    invariant
                        z <= 3,
                        y < 6,
                        x < NB_UR_TO_DF,
                        solved.wf(),
                        start.valid(12, 2),
                        f == Face::of_axis(y as int),
                        quarter.face_spec() == f,
                        quarter.turns_spec() == 1,
                        solved@.edges == turn_edges_times(start, f, z as nat),
                        start == start_state(CoordinateKind::UrToDf, x as int),
                        forall|b: int|
                            0 <= b < 3 * y + z ==> #[trigger] row@[b] == step(
                                CoordinateKind::UrToDf,
                                x as int,
                                Move::of_index(b),
                            ),
                    decreases 3 - z,
                {
                    proof {
                        lemma_turn_edges_times_add(start, f, z as nat, 1);
                        lemma_column(y as int, z as int);
                    }
                    solved.edges_multiply(quarter);
                    row[3 * y + z] = solved.ur_to_df();
                    z += 1;
                }
                proof {
                    lemma_turn_edges_times_add(start, f, 3, 1);
                    lemma_four_edge_turns(start, f);
                }
                solved.edges_multiply(quarter);
                y += 1;
            }
            self.ur_to_df_move.set(x, row);
            x += 1;
        }
    }

    /// Fills the merge table.
    pub fn init_merge_ur_to_ul_and_ub_to_df(&mut self)
        requires
            old(self).wf(),
        ensures
            final(self).wf(),
            is_merge_table(final(self).merge_ur_to_ul_and_ub_to_df@),
            *final(self) == (Coordinate {
                merge_ur_to_ul_and_ub_to_df: final(self).merge_ur_to_ul_and_ub_to_df,
                ..*old(self)
            }),
    {
        self.merge_ur_to_ul_and_ub_to_df = build_merge_table();
    }

    /// The move tables that the pruning table is built from.
    pub open spec fn transitions(&self) -> Transitions {
        Transitions {
            slice: self.fr_to_br_move@,
            corners: self.urf_to_dlf_move@,
            parity: self.parity_move@,
        }
    }

    /// Whether the pruning table holds, for every entry, the least number of
    /// slice-keeping moves that lead to it from the solved state, as the move
    /// tables have them; and 15 where more than 14 are needed, or none lead
    /// there.
    pub open spec fn pruning_built(&self) -> bool {
        &&& self.urf_to_dlf_parity_prun@.len() == NB_PRUNING_BYTES
        &&& forall|x: int|
            0 <= x < NB_PRUNING && nibble(self.urf_to_dlf_parity_prun@, x) != UNVISITED
                ==> self.transitions().distance_is(
                x,
                nibble(self.urf_to_dlf_parity_prun@, x) as nat,
            )
        &&& forall|x: int, d: nat|
            0 <= x < NB_PRUNING && nibble(self.urf_to_dlf_parity_prun@, x) == UNVISITED && d
                <= MAX_DEPTH ==> !self.transitions().reached(x, d)
    }

    /// Whether every entry of the pruning table holds a distance.
    pub open spec fn pruning_complete(&self) -> bool {
        forall|x: int|
            0 <= x < NB_PRUNING ==> nibble(self.urf_to_dlf_parity_prun@, x) != UNVISITED
    }

    /// Fills the pruning table from the move tables of the edges FR to BR, of
    /// the corners URF to DLF and of the parity, and returns the number of
    /// entries that hold a distance.
    pub fn init_urf_to_dlf_parity_prun(&mut self) -> (done: usize)
        requires
            old(self).wf(),
            old(self).transitions().closed(),
        ensures
            final(self).wf(),
            final(self).pruning_built(),
            done == NB_PRUNING <==> final(self).pruning_complete(),
            *final(self) == (Coordinate {
                urf_to_dlf_parity_prun: final(self).urf_to_dlf_parity_prun,
                ..*old(self)
            }),
    {
        let (table, done) = fill_pruning(
            &self.fr_to_br_move,
            &self.urf_to_dlf_move,
            &self.parity_move,
        );
        self.urf_to_dlf_parity_prun = table;
        done
    }

    /// Whether every entry of the pruning table holds a distance.
    pub fn is_pruning_complete(&self) -> (b: bool)
        requires
            self.wf(),
        ensures
            b == self.pruning_complete(),
    {
        let mut x: usize = 0;
        while x < NB_PRUNING
            invariant
                x <= NB_PRUNING,
                self.wf(),
                forall|j: int| 0 <= j < x ==> nibble(self.urf_to_dlf_parity_prun@, j) != UNVISITED,
            decreases NB_PRUNING - x,
        {
            if Coordinate::prunning(&self.urf_to_dlf_parity_prun, x) == UNVISITED {
                return false;
            }
            x += 1;
        }
        true
    }

    /// Whether every table is filled.
    pub open spec fn tables_built(&self) -> bool {
        &&& is_move_table(self.twist_move@, CoordinateKind::Twist)
        &&& is_move_table(self.flip_move@, CoordinateKind::Flip)
        &&& is_move_table(self.fr_to_br_move@, CoordinateKind::FrToBr)
        &&& is_move_table(self.urf_to_dlf_move@, CoordinateKind::UrfToDlf)
        &&& is_move_table(self.ur_to_ul_move@, CoordinateKind::UrToUl)
        &&& is_move_table(self.ub_to_df_move@, CoordinateKind::UbToDf)
        &&& is_move_table(self.ur_to_df_move@, CoordinateKind::UrToDf)
        &&& is_merge_table(self.merge_ur_to_ul_and_ub_to_df@)
        &&& self.pruning_built()
    }

    /// Fills every table: the move tables, the merge table, and from the move
    /// tables the pruning table. The coordinates stay as they are.
    pub fn init_pruning(&mut self)
        requires
            old(self).wf(),
        ensures
            final(self).wf(),
            final(self).tables_built(),
            final(self).twist == old(self).twist,
            final(self).flip == old(self).flip,
            final(self).parity == old(self).parity,
            final(self).fr_to_br == old(self).fr_to_br,
            final(self).urf_to_dlf == old(self).urf_to_dlf,
            final(self).ur_to_ul == old(self).ur_to_ul,
            final(self).ub_to_df == old(self).ub_to_df,
            final(self).ur_to_df == old(self).ur_to_df,
            final(self).parity_move == old(self).parity_move,
    {
        self.init_twist_move();
        self.init_flip_move();
        self.init_fr_to_br_move();
        self.init_urf_to_dlf_move();
        self.init_ur_to_ul_move();
        self.init_ub_to_df_move();
        self.init_ur_to_df_move();
        self.init_merge_ur_to_ul_and_ub_to_df();
        proof {
            let t = self.transitions();
            assert forall|s: int, y: int| 0 <= s < 24
                && keeps_slice_index(y) implies #[trigger] t.slice[s][y]
                < 24 by {
                assert(Move::of_index(y).keeps_slice_spec());
                lemma_slice_step(s, Move::of_index(y));
            }
            assert forall|c: int, y: int|
                0 <= c < 20160 && keeps_slice_index(y) implies #[trigger] t.corners[c][y]
                < 20160 by {
                lemma_step_in_span(CoordinateKind::UrfToDlf, c, Move::of_index(y));
            }
            assert forall|p: int, y: int| 0 <= p < 2
                && keeps_slice_index(y) implies #[trigger] t.parity[p][y]
                < 2 by {
                assert(self.parity_move@[p][y] == parity_step(p, y));
            }
        }
        let _ = self.init_urf_to_dlf_parity_prun();
    }
}

/// The coordinate that the move `m` leads to from the value `x` of a kind of
/// coordinate: a solved cube is put at `x`, moved, and read.
pub fn simulate(kind: CoordinateKind, x: u32, m: Move) -> (y: u32)
    requires
        x < domain(kind),
    ensures
        y == step(kind, x as int, m),
{
    let mut cube = Cube::new_default();
    match kind {
        CoordinateKind::Twist => {
            cube.set_twist(x);
            cube.corners_multiply(m);
            cube.twist()
        },
        CoordinateKind::Flip => {
            cube.set_flip(x);
            cube.edges_multiply(m);
            cube.flip()
        },
        CoordinateKind::FrToBr => {
            cube.set_fr_to_br(x);
            cube.edges_multiply(m);
            cube.fr_to_br()
        },
        CoordinateKind::UrfToDlf => {
            cube.set_urf_to_dlf(x);
            cube.corners_multiply(m);
            cube.urf_to_dlf()
        },
        CoordinateKind::UrToUl => {
            cube.set_ur_to_ul(x);
            cube.edges_multiply(m);
            cube.ur_to_ul()
        },
        CoordinateKind::UbToDf => {
            cube.set_ub_to_df(x);
            cube.edges_multiply(m);
            cube.ub_to_df()
        },
        CoordinateKind::UrToDf => {
            cube.set_ur_to_df(x);
            cube.edges_multiply(m);
            cube.ur_to_df()
        },
    }
}

} // verus!
