use vstd::prelude::*;

use crate::cell::BoardState;

verus! {

/// Number of columns of the board.
pub const WIDTH: usize = 8;

/// Number of rows of the board.
pub const HEIGHT: usize = 8;

/// Number of squares of the board.
pub const CELLS: usize = WIDTH * HEIGHT;

/// Number of mines that a board is generated with by default.
pub const N_BOMBS: u8 = 12;

/// How many mines are placed when `n` are asked for and `available` squares
/// can take one: the request, capped at what is available.
pub open spec fn capped(n: int, available: int) -> int {
    if n < available {
        n
    } else {
        available
    }
}

/// Square (x, y) lies on the board: x is the column, y the row.
pub open spec fn in_bounds(x: int, y: int) -> bool {
    0 <= x < WIDTH && 0 <= y < HEIGHT
}

/// Position of square (x, y) in the board's flat, row after row, layout.
pub open spec fn index_of(x: int, y: int) -> int {
    y * WIDTH + x
}

/// Every coordinate pair of the sequence lies on the board.
pub open spec fn all_in_bounds(mines: Seq<(usize, usize)>) -> bool {
    forall|i: int| 0 <= i < mines.len() ==> in_bounds(#[trigger] mines[i].0 as int, mines[i].1 as int)
}

/// Coordinate pair `m` names one of the (up to eight) squares around (x, y).
pub open spec fn adjacent(m: (usize, usize), x: int, y: int) -> bool {
    &&& (m.0 != x || m.1 != y)
    &&& x - 1 <= m.0 <= x + 1
    &&& y - 1 <= m.1 <= y + 1
}

/// Some entry of `mines` names square (x, y).
pub open spec fn placed(mines: Seq<(usize, usize)>, x: int, y: int) -> bool {
    exists|i: int| 0 <= i < mines.len() && #[trigger] mines[i].0 == x && mines[i].1 == y
}

/// How many entries of `mines` name a square around (x, y), each entry
/// counted as often as it occurs.
pub open spec fn hits(mines: Seq<(usize, usize)>, x: int, y: int) -> nat
    decreases mines.len(),
{
    if mines.len() == 0 {
        0
    } else {
        hits(mines.drop_last(), x, y) + if adjacent(mines.last(), x, y) {
            1nat
        } else {
            0nat
        }
    }
}

/// The square that holds no mine and sees `n` of them around it.
pub open spec fn counted(n: int) -> BoardState {
    if n == 0 {
        BoardState::Empty
    } else {
        BoardState::Count(n as u8)
    }
}

/// What square (x, y) holds once every entry of `mines` has been placed:
/// a mine where an entry names it, else the number of entries around it.
pub open spec fn square_after(mines: Seq<(usize, usize)>, x: int, y: int) -> BoardState {
    if placed(mines, x, y) {
        BoardState::Bomb
    } else {
        counted(hits(mines, x, y) as int)
    }
}

/// The whole board, in flat layout, that placing `mines` produces.
pub open spec fn board_of(mines: Seq<(usize, usize)>) -> Seq<BoardState> {
    Seq::new(CELLS as nat, |i: int| square_after(mines, i % (WIDTH as int), i / (WIDTH as int)))
}

/// Square (x, y) of a board in flat layout.
pub open spec fn at(b: Seq<BoardState>, x: int, y: int) -> BoardState {
    b[index_of(x, y)]
}

/// One if square (x, y) is on the board and holds a mine, else zero.
pub open spec fn bomb_at(b: Seq<BoardState>, x: int, y: int) -> int {
    if in_bounds(x, y) && at(b, x, y) is Bomb {
        1
    } else {
        0
    }
}

/// How many of the squares around (x, y) hold a mine.
pub open spec fn neighbour_bombs(b: Seq<BoardState>, x: int, y: int) -> int {
    bomb_at(b, x - 1, y - 1) + bomb_at(b, x, y - 1) + bomb_at(b, x + 1, y - 1) + bomb_at(b, x - 1, y)
        + bomb_at(b, x + 1, y) + bomb_at(b, x - 1, y + 1) + bomb_at(b, x, y + 1) + bomb_at(
        b,
        x + 1,
        y + 1,
    )
}

/// Every square without a mine shows exactly how many of its neighbours hold one.
pub open spec fn consistent(b: Seq<BoardState>) -> bool {
    &&& b.len() == CELLS
    &&& forall|x: int, y: int|
        in_bounds(x, y) ==> (#[trigger] at(b, x, y) is Bomb || at(b, x, y) == counted(
            neighbour_bombs(b, x, y),
        ))
}

/// Every square of the board is one that a valid board can hold.
pub open spec fn all_valid(b: Seq<BoardState>) -> bool {
    forall|i: int| 0 <= i < b.len() ==> crate::cell::valid_state(#[trigger] b[i])
}

/// How many squares of `b` hold a mine.
pub open spec fn bomb_count(b: Seq<BoardState>) -> nat
    decreases b.len(),
{
    if b.len() == 0 {
        0
    } else {
        bomb_count(b.drop_last()) + if b.last() is Bomb {
            1nat
        } else {
            0nat
        }
    }
}

/// The flat position of a square and its coordinates determine each other.
pub proof fn lemma_index(x: int, y: int)
    requires
        in_bounds(x, y),
    ensures
        0 <= index_of(x, y) < CELLS,
        index_of(x, y) % (WIDTH as int) == x,
        index_of(x, y) / (WIDTH as int) == y,
{
    assert((y * 8 + x) % 8 == x && (y * 8 + x) / 8 == y) by (nonlinear_arith)
        requires
            0 <= x < 8,
            0 <= y < 8,
    ;
}

/// Each flat position names a square of the board.
pub proof fn lemma_position(i: int)
    requires
        0 <= i < CELLS,
    ensures
        in_bounds(i % (WIDTH as int), i / (WIDTH as int)),
        index_of(i % (WIDTH as int), i / (WIDTH as int)) == i,
{
    assert(0 <= i % 8 < 8 && 0 <= i / 8 < 8 && (i / 8) * 8 + i % 8 == i) by (nonlinear_arith)
        requires
            0 <= i < 64,
    ;
}

/// A square of the board built from `mines`, read by its coordinates.
pub proof fn lemma_board_at(mines: Seq<(usize, usize)>, x: int, y: int)
    requires
        in_bounds(x, y),
    ensures
        at(board_of(mines), x, y) == square_after(mines, x, y),
{
    lemma_index(x, y);
}

/// No square can see more entries than the sequence has.
pub proof fn lemma_hits_bound(mines: Seq<(usize, usize)>, x: int, y: int)
    ensures
        hits(mines, x, y) <= mines.len(),
    decreases mines.len(),
{
    if mines.len() > 0 {
        lemma_hits_bound(mines.drop_last(), x, y);
    }
}

/// What placing one more mine `m` does to square (x, y): the square named
/// becomes a mine, the squares around it count one more, the rest stay.
pub proof fn lemma_square_step(mines: Seq<(usize, usize)>, m: (usize, usize), x: int, y: int)
    requires
        mines.len() < 255,
    ensures
        square_after(mines.push(m), x, y) == if m.0 == x && m.1 == y {
            BoardState::Bomb
        } else if adjacent(m, x, y) {
            crate::cell::inc_spec(square_after(mines, x, y))
        } else {
            square_after(mines, x, y)
        },
{
    assert(mines.push(m).drop_last() =~= mines);
    lemma_placed_push(mines, m, x, y);
    lemma_hits_bound(mines, x, y);
}

/// A sequence with one more entry names what the shorter one names, and the new entry.
pub proof fn lemma_placed_push(mines: Seq<(usize, usize)>, m: (usize, usize), x: int, y: int)
    ensures
        placed(mines.push(m), x, y) == (placed(mines, x, y) || (m.0 == x && m.1 == y)),
{
    let next = mines.push(m);
    if placed(mines, x, y) {
        let i = choose|i: int| 0 <= i < mines.len() && #[trigger] mines[i].0 == x && mines[i].1 == y;
        assert(next[i] == mines[i]);
    }
    if m.0 == x && m.1 == y {
        assert(next[mines.len() as int] == m);
    }
    if placed(next, x, y) && !(m.0 == x && m.1 == y) {
        let i = choose|i: int| 0 <= i < next.len() && #[trigger] next[i].0 == x && next[i].1 == y;
        assert(mines[i] == next[i]);
    }
}

} // verus!
