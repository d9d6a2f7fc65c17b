//! The six sides of the cube.

use vstd::prelude::*;
use vstd::string::StringExecFns;

verus! {

/// A side of the cube, which is also the colour of the stickers that belong
/// to it.
#[derive(Clone, Copy, Debug, PartialEq, Eq, Structural)]
pub enum Face {
    F,
    B,
    U,
    D,
    L,
    R,
}

impl Face {
    /// The place of the face among the turning axes: U, R, F, D, L, B.
    pub open spec fn axis_spec(self) -> int {
        match self {
            Face::U => 0,
            Face::R => 1,
            Face::F => 2,
            Face::D => 3,
            Face::L => 4,
            Face::B => 5,
        }
    }

    /// The place of the face among the turning axes.
    pub fn axis(&self) -> (a: usize)
        ensures
            a == self.axis_spec(),
            a < 6,
    {
        match *self {
            Face::U => 0,
            Face::R => 1,
            Face::F => 2,
            Face::D => 3,
            Face::L => 4,
            Face::B => 5,
        }
    }

    /// The face with the given place among the turning axes.
    pub open spec fn of_axis(a: int) -> Face {
        if a == 0 {
            Face::U
        } else if a == 1 {
            Face::R
        } else if a == 2 {
            Face::F
        } else if a == 3 {
            Face::D
        } else if a == 4 {
            Face::L
        } else {
            Face::B
        }
    }

    /// The face with the given place among the turning axes.
    pub fn from_axis(a: usize) -> (f: Face)
        requires
            a < 6,
        ensures
            f == Face::of_axis(a as int),
            f.axis_spec() == a,
    {
        if a == 0 {
            Face::U
        } else if a == 1 {
            Face::R
        } else if a == 2 {
            Face::F
        } else if a == 3 {
            Face::D
        } else if a == 4 {
            Face::L
        } else {
            Face::B
        }
    }

    /// The terminal escape sequence that switches to the face's colour.
    pub open spec fn color_spec(self) -> Seq<char> {
        match self {
            Face::F => "\x1b[7;33m"@,
            Face::B => "\x1b[7;31m"@,
            Face::U => "\x1b[7;37m"@,
            Face::D => "\x1b[7;47;30m"@,
            Face::L => "\x1b[7;32m"@,
            Face::R => "\x1b[7;34m"@,
        }
    }

    /// The terminal escape sequence that switches to the face's colour.
    pub fn color(&self) -> (s: &'static str)
        ensures
            s@ == self.color_spec(),
    {
        match *self {
            Face::F => "\x1b[7;33m",
            Face::B => "\x1b[7;31m",
            Face::U => "\x1b[7;37m",
            Face::D => "\x1b[7;47;30m",
            Face::L => "\x1b[7;32m",
            Face::R => "\x1b[7;34m",
        }
    }

    /// The face's letter.
    pub open spec fn letter(self) -> Seq<char> {
        match self {
            Face::F => "F"@,
            Face::B => "B"@,
            Face::U => "U"@,
            Face::D => "D"@,
            Face::L => "L"@,
            Face::R => "R"@,
        }
    }

    /// The face's letter.
    pub fn to_string(&self) -> (s: String)
        ensures
            s@ == self.letter(),
    {
        String::from_str(
            match *self {
                Face::F => "F",
                Face::B => "B",
                Face::U => "U",
                Face::D => "D",
                Face::L => "L",
                Face::R => "R",
            },
        )
    }
}

} // verus!
