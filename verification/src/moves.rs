//! The 18 face turns, and the 12 quarter turns they are made of.

use vstd::prelude::*;
use vstd::string::StringSliceAdditionalSpecFns;
use crate::face::Face;

verus! {

/// A face turn: a quarter turn clockwise, a half turn, or a quarter turn
/// counterclockwise (written with a prime).
#[derive(Clone, Copy, Debug, PartialEq, Eq, Structural)]
pub enum Move {
    Up,
    Up2,
    UpPrime,
    Right,
    Right2,
    RightPrime,
    Front,
    Front2,
    FrontPrime,
    Down,
    Down2,
    DownPrime,
    Left,
    Left2,
    LeftPrime,
    Back,
    Back2,
    BackPrime,
}

/// A quarter turn of one face, in one of the two directions.
#[derive(Clone, Copy, Debug, PartialEq, Eq, Structural)]
pub enum CubeMove {
    Front,
    FrontPrime,
    Right,
    RightPrime,
    Up,
    UpPrime,
    Back,
    BackPrime,
    Left,
    LeftPrime,
    Down,
    DownPrime,
}

/// The number of face turns.
pub const NB_MOVES: usize = 18;

impl CubeMove {
    /// The face that turns.
    pub open spec fn face_spec(self) -> Face {
        match self {
            CubeMove::Front | CubeMove::FrontPrime => Face::F,
            CubeMove::Right | CubeMove::RightPrime => Face::R,
            CubeMove::Up | CubeMove::UpPrime => Face::U,
            CubeMove::Back | CubeMove::BackPrime => Face::B,
            CubeMove::Left | CubeMove::LeftPrime => Face::L,
            CubeMove::Down | CubeMove::DownPrime => Face::D,
        }
    }

    /// How many clockwise quarter turns come to the same: one, or three for
    /// a counterclockwise turn.
    pub open spec fn turns_spec(self) -> nat {
        match self {
            CubeMove::Front | CubeMove::Right | CubeMove::Up | CubeMove::Back | CubeMove::Left
            | CubeMove::Down => 1,
            _ => 3,
        }
    }

    /// The face that turns.
    pub fn face(&self) -> (f: Face)
        ensures
            f == self.face_spec(),
    {
        match *self {
            CubeMove::Front | CubeMove::FrontPrime => Face::F,
            CubeMove::Right | CubeMove::RightPrime => Face::R,
            CubeMove::Up | CubeMove::UpPrime => Face::U,
            CubeMove::Back | CubeMove::BackPrime => Face::B,
            CubeMove::Left | CubeMove::LeftPrime => Face::L,
            CubeMove::Down | CubeMove::DownPrime => Face::D,
        }
    }

    /// How many clockwise quarter turns come to the same.
    pub fn turns(&self) -> (t: usize)
        ensures
            t == self.turns_spec(),
    {
        match *self {
            CubeMove::Front | CubeMove::Right | CubeMove::Up | CubeMove::Back | CubeMove::Left
            | CubeMove::Down => 1,
            _ => 3,
        }
    }
}

impl Move {
    /// The face that turns.
    pub open spec fn face_spec(self) -> Face {
        match self {
            Move::Up | Move::Up2 | Move::UpPrime => Face::U,
            Move::Right | Move::Right2 | Move::RightPrime => Face::R,
            Move::Front | Move::Front2 | Move::FrontPrime => Face::F,
            Move::Down | Move::Down2 | Move::DownPrime => Face::D,
            Move::Left | Move::Left2 | Move::LeftPrime => Face::L,
            Move::Back | Move::Back2 | Move::BackPrime => Face::B,
        }
    }

    /// How many clockwise quarter turns the move is: 1, 2, or 3 for a
    /// counterclockwise turn.
    pub open spec fn turns_spec(self) -> nat {
        match self {
            Move::Up | Move::Right | Move::Front | Move::Down | Move::Left | Move::Back => 1,
            Move::Up2 | Move::Right2 | Move::Front2 | Move::Down2 | Move::Left2 | Move::Back2 => 2,
            _ => 3,
        }
    }

    /// The column of the move in a move table: three columns for each of the
    /// axes U, R, F, D, L, B, for one, two and three quarter turns.
    pub open spec fn index_spec(self) -> int {
        3 * self.face_spec().axis_spec() + self.turns_spec() - 1
    }

    /// The move that undoes this one.
    pub open spec fn inverse_spec(self) -> Move {
        Move::of_index(3 * self.face_spec().axis_spec() + 3 - self.turns_spec())
    }

    /// The move of a column of a move table.
    pub open spec fn of_index(i: int) -> Move {
        if i == 0 {
            Move::Up
        } else if i == 1 {
            Move::Up2
        } else if i == 2 {
            Move::UpPrime
        } else if i == 3 {
            Move::Right
        } else if i == 4 {
            Move::Right2
        } else if i == 5 {
            Move::RightPrime
        } else if i == 6 {
            Move::Front
        } else if i == 7 {
            Move::Front2
        } else if i == 8 {
            Move::FrontPrime
        } else if i == 9 {
            Move::Down
        } else if i == 10 {
            Move::Down2
        } else if i == 11 {
            Move::DownPrime
        } else if i == 12 {
            Move::Left
        } else if i == 13 {
            Move::Left2
        } else if i == 14 {
            Move::LeftPrime
        } else if i == 15 {
            Move::Back
        } else if i == 16 {
            Move::Back2
        } else {
            Move::BackPrime
        }
    }

    /// Whether the move keeps the four middle-slice edges in the middle
    /// slice and turns no corner or edge: any turn of U or D, and the half
    /// turns of the other faces.
    pub open spec fn keeps_slice_spec(self) -> bool {
        self.face_spec() == Face::U || self.face_spec() == Face::D || self.turns_spec() == 2
    }

    /// The face that turns.
    pub fn face(&self) -> (f: Face)
        ensures
            f == self.face_spec(),
    {
        match *self {
            Move::Up | Move::Up2 | Move::UpPrime => Face::U,
            Move::Right | Move::Right2 | Move::RightPrime => Face::R,
            Move::Front | Move::Front2 | Move::FrontPrime => Face::F,
            Move::Down | Move::Down2 | Move::DownPrime => Face::D,
            Move::Left | Move::Left2 | Move::LeftPrime => Face::L,
            Move::Back | Move::Back2 | Move::BackPrime => Face::B,
        }
    }

    /// How many clockwise quarter turns come to the same.
    pub fn turns(&self) -> (t: usize)
        ensures
            t == self.turns_spec(),
            1 <= t <= 3,
    {
        match *self {
            Move::Up | Move::Right | Move::Front | Move::Down | Move::Left | Move::Back => 1,
            Move::Up2 | Move::Right2 | Move::Front2 | Move::Down2 | Move::Left2 | Move::Back2 => 2,
            _ => 3,
        }
    }

    /// The column of the move in a move table.
    pub fn index(&self) -> (i: usize)
        ensures
            i == self.index_spec(),
            i < NB_MOVES,
            Move::of_index(i as int) == *self,
    {
        3 * self.face().axis() + self.turns() - 1
    }

    /// The move of a column of a move table.
    pub fn from_index(i: usize) -> (m: Move)
        requires
            i < NB_MOVES,
        ensures
            m == Move::of_index(i as int),
            m.index_spec() == i,
    {
        if i == 0 {
            Move::Up
        } else if i == 1 {
            Move::Up2
        } else if i == 2 {
            Move::UpPrime
        } else if i == 3 {
            Move::Right
        } else if i == 4 {
            Move::Right2
        } else if i == 5 {
            Move::RightPrime
        } else if i == 6 {
            Move::Front
        } else if i == 7 {
            Move::Front2
        } else if i == 8 {
            Move::FrontPrime
        } else if i == 9 {
            Move::Down
        } else if i == 10 {
            Move::Down2
        } else if i == 11 {
            Move::DownPrime
        } else if i == 12 {
            Move::Left
        } else if i == 13 {
            Move::Left2
        } else if i == 14 {
            Move::LeftPrime
        } else if i == 15 {
            Move::Back
        } else if i == 16 {
            Move::Back2
        } else {
            Move::BackPrime
        }
    }

    /// The clockwise quarter turn of the axis `y`.
    pub fn from_u(y: usize) -> (m: Move)
        requires
            y < 6,
        ensures
            m == Move::of_index(3 * y),
            m.face_spec() == Face::of_axis(y as int),
            m.turns_spec() == 1,
    {
        Move::from_index(3 * y)
    }

    /// The move that undoes this one.
    pub fn inverse(&self) -> (m: Move)
        ensures
            m == self.inverse_spec(),
            m.face_spec() == self.face_spec(),
            m.turns_spec() + self.turns_spec() == 4,
    {
        Move::from_index(3 * self.face().axis() + 3 - self.turns())
    }

    /// Whether the move keeps the four middle-slice edges in the middle slice.
    pub fn keeps_slice(&self) -> (b: bool)
        ensures
            b == self.keeps_slice_spec(),
    {
        match self.face() {
            Face::U | Face::D => true,
            _ => self.turns() == 2,
        }
    }
}

/// The sequence that undoes a sequence of moves: the moves that undo its
/// moves, the last one first.
pub open spec fn undoing(ms: Seq<Move>) -> Seq<Move>
    decreases ms.len(),
{
    if ms.len() == 0 {
        Seq::empty()
    } else {
        seq![ms.last().inverse_spec()] + undoing(ms.drop_last())
    }
}

/// The sequence that undoes a sequence of moves.
pub fn inverse_sequence(ms: &Vec<Move>) -> (back: Vec<Move>)
    ensures
        back@ == undoing(ms@),
{
    let n = ms.len();
    let mut back: Vec<Move> = Vec::new();
    let mut i: usize = 0;
    assert(ms@.take(n as int) =~= ms@);
    while i < n
        invariant
            i <= n,
            n == ms@.len(),
            back@ + undoing(ms@.take(n - i)) == undoing(ms@),
        decreases n - i,
    {
        let ghost left = ms@.take(n - i);
        let ghost before = back@;
        back.push(ms[n - 1 - i].inverse());
        assert(left.drop_last() =~= ms@.take(n - i - 1));
        assert(before + (seq![left.last().inverse_spec()] + undoing(left.drop_last())) =~= back@
            + undoing(left.drop_last()));
        i += 1;
    }
    assert(back@ + Seq::<Move>::empty() =~= back@);
    back
}

/// Move sequences as a user writes them: a face letter (`U`, `R`, `F`, `D`,
/// `L`, `B`), then `2` for a half turn or `'` for a counterclockwise turn, or
/// nothing; spaces may stand between moves.
pub struct UserMove;

/// The face that a letter names.
pub open spec fn face_of_letter(b: u8) -> Option<Face> {
    if b == 'U' as u8 {
        Some(Face::U)
    } else if b == 'R' as u8 {
        Some(Face::R)
    } else if b == 'F' as u8 {
        Some(Face::F)
    } else if b == 'D' as u8 {
        Some(Face::D)
    } else if b == 'L' as u8 {
        Some(Face::L)
    } else if b == 'B' as u8 {
        Some(Face::B)
    } else {
        None
    }
}

/// How many clockwise quarter turns the move written at `i` is: 2 where a `2`
/// follows the letter, 3 where a `'` follows it, else 1.
pub open spec fn turns_written(text: Seq<u8>, i: int) -> int {
    if i + 1 < text.len() && text[i + 1] == '2' as u8 {
        2
    } else if i + 1 < text.len() && text[i + 1] == '\'' as u8 {
        3
    } else {
        1
    }
}

/// The moves written from the place `i` on, or the place of the first byte
/// that is neither a space nor the beginning of a move.
pub open spec fn moves_written(text: Seq<u8>, i: int) -> Result<Seq<Move>, int>
    decreases text.len() - i,
{
    if i < 0 || i >= text.len() {
        Ok(Seq::empty())
    } else if text[i] == ' ' as u8 {
        moves_written(text, i + 1)
    } else {
        match face_of_letter(text[i]) {
            None => Err(i),
            Some(f) => {
                let turns = turns_written(text, i);
                let next = if turns == 1 {
                    i + 1
                } else {
                    i + 2
                };
                match moves_written(text, next) {
                    Err(at) => Err(at),
                    Ok(rest) => Ok(seq![Move::of_index(3 * f.axis_spec() + turns - 1)] + rest),
                }
            },
        }
    }
}

/// The moves read so far, followed by what is written from `i` on.
pub open spec fn moves_with(done: Seq<Move>, text: Seq<u8>, i: int) -> Result<Seq<Move>, int> {
    match moves_written(text, i) {
        Err(at) => Err(at),
        Ok(rest) => Ok(done + rest),
    }
}

impl UserMove {
    /// Reads a move sequence. Where a byte is neither a space nor the
    /// beginning of a move, the error is the place of the first such byte.
    pub fn sequence_from_str(text: &str) -> (r: Result<Vec<Move>, usize>)
        ensures
            match moves_written(text.spec_bytes(), 0) {
                Ok(ms) => r is Ok && r->Ok_0@ == ms,
                Err(at) => r is Err && r->Err_0 == at,
            },
    {
        let bytes = text.as_bytes();
        let n = bytes.len();
        let mut moves: Vec<Move> = Vec::new();
        let mut i: usize = 0;
        assert(moves@ + moves_written(bytes@, 0)->Ok_0 =~= moves_written(bytes@, 0)->Ok_0);
        while i < n
            invariant
                i <= n + 1,
                n == bytes@.len(),
                bytes@ == text.spec_bytes(),
                moves_with(moves@, bytes@, i as int) == moves_written(bytes@, 0),
            decreases n + 1 - i,
        {
            let b = bytes[i];
            if b == 32 {
                i += 1;
            } else {
                let axis: usize = if b == 85 {
                    0
                } else if b == 82 {
                    1
                } else if b == 70 {
                    2
                } else if b == 68 {
                    3
                } else if b == 76 {
                    4
                } else if b == 66 {
                    5
                } else {
                    return Err(i);
                };
                let turns: usize = if i + 1 < n && bytes[i + 1] == 50 {
                    2
                } else if i + 1 < n && bytes[i + 1] == 39 {
                    3
                } else {
                    1
                };
                let ghost before = moves@;
                let m = Move::from_index(3 * axis + turns - 1);
                moves.push(m);
                let next = if turns == 1 {
                    i + 1
                } else {
                    i + 2
                };
                proof {
                    let rest = moves_written(bytes@, next as int);
                    if rest is Ok {
                        assert(before + (seq![m] + rest->Ok_0) =~= moves@ + rest->Ok_0);
                    }
                }
                i = next;
            }
        }
        assert(moves@ + Seq::<Move>::empty() =~= moves@);
        Ok(moves)
    }
}

} // verus!
