use vstd::prelude::*;

verus! {

/// The state of one square of the board.
#[derive(Copy, Clone, Debug, PartialEq, Eq, Structural)]
pub enum BoardState {
    /// No mine here and no mine next to it.
    Empty,
    /// A mine.
    Bomb,
    /// No mine here; the payload is how many neighbours hold one.
    Count(u8),
}

impl Default for BoardState {
    fn default() -> (r: Self)
        ensures
            r == BoardState::Empty,
    {
        BoardState::Empty
    }
}

/// What one increment does to a square: an empty square starts counting,
/// a counting square counts one more, a mine is left as it is.
pub open spec fn inc_spec(s: BoardState) -> BoardState {
    match s {
        BoardState::Empty => BoardState::Count(1),
        BoardState::Count(n) => BoardState::Count((n + 1) as u8),
        BoardState::Bomb => BoardState::Bomb,
    }
}

/// A square that a valid board can hold: a count lies between one and eight.
pub open spec fn valid_state(s: BoardState) -> bool {
    s matches BoardState::Count(n) ==> 1 <= n <= 8
}

/// The token that shows square `s`: a blank, a mine, or the digit of its
/// count, each hidden behind a spoiler mark.
pub open spec fn glyph_of(s: BoardState) -> Seq<char> {
    match s {
        BoardState::Empty => "||`\u{25ab}\u{fe0f}`||"@,
        BoardState::Bomb => "||`\u{1f4a3}`||"@,
        BoardState::Count(n) => if n == 1 {
            "||`1\u{fe0f}\u{20e3}`||"@
        } else if n == 2 {
            "||`2\u{fe0f}\u{20e3}`||"@
        } else if n == 3 {
            "||`3\u{fe0f}\u{20e3}`||"@
        } else if n == 4 {
            "||`4\u{fe0f}\u{20e3}`||"@
        } else if n == 5 {
            "||`5\u{fe0f}\u{20e3}`||"@
        } else if n == 6 {
            "||`6\u{fe0f}\u{20e3}`||"@
        } else if n == 7 {
            "||`7\u{fe0f}\u{20e3}`||"@
        } else {
            "||`8\u{fe0f}\u{20e3}`||"@
        },
    }
}

impl BoardState {
    /// The token that shows this square.
    pub fn glyph(&self) -> (r: &'static str)
        requires
            valid_state(*self),
        ensures
            r@ == glyph_of(*self),
    {
        match self {
            BoardState::Empty => "||`\u{25ab}\u{fe0f}`||",
            BoardState::Bomb => "||`\u{1f4a3}`||",
            BoardState::Count(n) => {
                if *n == 1 {
                    "||`1\u{fe0f}\u{20e3}`||"
                } else if *n == 2 {
                    "||`2\u{fe0f}\u{20e3}`||"
                } else if *n == 3 {
                    "||`3\u{fe0f}\u{20e3}`||"
                } else if *n == 4 {
                    "||`4\u{fe0f}\u{20e3}`||"
                } else if *n == 5 {
                    "||`5\u{fe0f}\u{20e3}`||"
                } else if *n == 6 {
                    "||`6\u{fe0f}\u{20e3}`||"
                } else if *n == 7 {
                    "||`7\u{fe0f}\u{20e3}`||"
                } else {
                    "||`8\u{fe0f}\u{20e3}`||"
                }
            },
        }
    }

    /// Records one more neighbouring mine on this square.
    pub fn inc(&mut self)
        requires
            *old(self) matches BoardState::Count(n) ==> n < u8::MAX,
        ensures
            *final(self) == inc_spec(*old(self)),
    {
        match self {
            BoardState::Empty => *self = BoardState::Count(1u8),
            BoardState::Count(v) => *v = *v + 1,
            BoardState::Bomb => (),
        }
    }
}

} // verus!
