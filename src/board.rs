use vstd::prelude::*;
use vstd::string::*;

use crate::cell::{glyph_of, inc_spec, BoardState};
use crate::laws::{lemma_counts_in_range, lemma_counts_match_neighbours, lemma_mine_total};
use crate::model::{
    adjacent, all_in_bounds, all_valid, at, board_of, bomb_count, capped, consistent, in_bounds,
    index_of, lemma_hits_bound, lemma_index, lemma_position, lemma_square_step, square_after,
    CELLS, HEIGHT, WIDTH,
};
use crate::placer::{all_coords, canonical_coords, lemma_reordered_coords, shuffle_coords};

verus! {

/// A generated board: its squares, row after row.
#[derive(Debug)]
pub struct Board {
    cells: Vec<BoardState>,
}

impl View for Board {
    type V = Seq<BoardState>;

    /// The squares in flat layout: square (x, y) stands at `index_of(x, y)`.
    closed spec fn view(&self) -> Seq<BoardState> {
        self.cells@
    }
}

/// A board in flat layout agrees with placing `mines` on every square.
pub open spec fn matches_placement(cells: Seq<BoardState>, mines: Seq<(usize, usize)>) -> bool {
    &&& cells.len() == CELLS
    &&& forall|x: int, y: int|
        in_bounds(x, y) ==> #[trigger] cells[index_of(x, y)] == square_after(mines, x, y)
}

/// Places a mine at `m` on a board that holds the mines of `mines`, and
/// counts it on every square around it.
fn place_one(cells: &mut Vec<BoardState>, m: (usize, usize), Ghost(mines): Ghost<Seq<(usize, usize)>>)
    requires
        matches_placement(old(cells)@, mines),
        in_bounds(m.0 as int, m.1 as int),
        mines.len() < 255,
    ensures
        matches_placement(final(cells)@, mines.push(m)),
{
    let (mx, my) = m;
    proof {
        lemma_index(mx as int, my as int);
    }
    cells.set(my * WIDTH + mx, BoardState::Bomb);
    let x0: usize = if mx > 0 { mx - 1 } else { 0 };
    let x1: usize = if mx + 1 < WIDTH { mx + 1 } else { mx };
    let y0: usize = if my > 0 { my - 1 } else { 0 };
    let y1: usize = if my + 1 < HEIGHT { my + 1 } else { my };
    let mut nx: usize = x0;
    while nx <= x1
        invariant
            cells@.len() == CELLS,
            mx < WIDTH,
            m == (mx, my),
            my < HEIGHT,
            x0 <= nx <= x1 + 1,
            x1 < WIDTH,
            y1 < HEIGHT,
            x0 == mx - 1 || (x0 == 0 && mx == 0),
            x1 == mx + 1 || (x1 == WIDTH - 1 && mx == WIDTH - 1),
            y0 == my - 1 || (y0 == 0 && my == 0),
            y1 == my + 1 || (y1 == HEIGHT - 1 && my == HEIGHT - 1),
            mines.len() < 255,
            matches_placement(old(cells)@, mines),
            forall|x: int, y: int|
                in_bounds(x, y) ==> #[trigger] cells@[index_of(x, y)] == if x == mx && y == my {
                    BoardState::Bomb
                } else if adjacent(m, x, y) && x < nx {
                    inc_spec(square_after(mines, x, y))
                } else {
                    square_after(mines, x, y)
                },
        decreases x1 + 1 - nx,
    {
        let mut ny: usize = y0;
        while ny <= y1
            invariant
                cells@.len() == CELLS,
                mx < WIDTH,
                m == (mx, my),
                my < HEIGHT,
                x0 <= nx <= x1,
                y0 <= ny <= y1 + 1,
                x1 < WIDTH,
                y1 < HEIGHT,
                x0 == mx - 1 || (x0 == 0 && mx == 0),
                x1 == mx + 1 || (x1 == WIDTH - 1 && mx == WIDTH - 1),
                y0 == my - 1 || (y0 == 0 && my == 0),
                y1 == my + 1 || (y1 == HEIGHT - 1 && my == HEIGHT - 1),
                mines.len() < 255,
                matches_placement(old(cells)@, mines),
                forall|x: int, y: int|
                    in_bounds(x, y) ==> #[trigger] cells@[index_of(x, y)] == if x == mx && y == my {
                        BoardState::Bomb
                    } else if adjacent(m, x, y) && (x < nx || (x == nx && y < ny)) {
                        inc_spec(square_after(mines, x, y))
                    } else {
                        square_after(mines, x, y)
                    },
            decreases y1 + 1 - ny,
        {
            if nx != mx || ny != my {
                proof {
                    lemma_index(nx as int, ny as int);
                    lemma_hits_bound(mines, nx as int, ny as int);
                }
                let i = ny * WIDTH + nx;
                let mut c = cells[i];
                c.inc();
                cells.set(i, c);
                proof {
                    assert forall|x: int, y: int| in_bounds(x, y) && (x != nx || y != ny) implies index_of(
                        x,
                        y,
                    ) != i by {
                        lemma_index(x, y);
                    }
                }
            }
            ny = ny + 1;
        }
        nx = nx + 1;
    }
    proof {
        assert forall|x: int, y: int| in_bounds(x, y) implies #[trigger] cells@[index_of(x, y)]
            == square_after(mines.push(m), x, y) by {
            lemma_square_step(mines, m, x, y);
        }
    }
}

/// The text of the first `n` squares of row `y`: each square's token
/// followed by one space.
pub open spec fn row_prefix_text(b: Seq<BoardState>, y: int, n: int) -> Seq<char>
    decreases n,
{
    if n <= 0 {
        Seq::empty()
    } else {
        row_prefix_text(b, y, n - 1) + glyph_of(at(b, n - 1, y)) + " "@
    }
}

/// The text of row `y`: the tokens of its squares from column zero on.
pub open spec fn row_text(b: Seq<BoardState>, y: int) -> Seq<char> {
    row_prefix_text(b, y, WIDTH as int)
}

/// The text of the first `n` rows, each ended by a line break.
pub open spec fn rows_text(b: Seq<BoardState>, n: int) -> Seq<char>
    decreases n,
{
    if n <= 0 {
        Seq::empty()
    } else {
        rows_text(b, n - 1) + row_text(b, n - 1) + "\n"@
    }
}

/// The text of a whole board: line `y` shows row `y`.
pub open spec fn board_text(b: Seq<BoardState>) -> Seq<char> {
    rows_text(b, HEIGHT as int)
}

/// Builds the board on which the first `k` entries of `mines` are placed.
fn build(mines: &Vec<(usize, usize)>, k: usize) -> (r: Board)
    requires
        k <= mines@.len(),
        k <= 255,
        all_in_bounds(mines@),
    ensures
        r@ == board_of(mines@.take(k as int)),
{
    let mut cells: Vec<BoardState> = Vec::new();
    let mut n: usize = 0;
    while n < CELLS
        invariant
            n <= CELLS,
            cells@.len() == n,
            forall|i: int| 0 <= i < n ==> #[trigger] cells@[i] == BoardState::Empty,
        decreases CELLS - n,
    {
        cells.push(BoardState::Empty);
        n = n + 1;
    }
    proof {
        assert forall|x: int, y: int| in_bounds(x, y) implies #[trigger] cells@[index_of(x, y)]
            == square_after(mines@.take(0), x, y) by {
            lemma_index(x, y);
        }
    }
    let mut i: usize = 0;
    while i < k
        invariant
            i <= k,
            k <= mines@.len(),
            k <= 255,
            all_in_bounds(mines@),
            matches_placement(cells@, mines@.take(i as int)),
        decreases k - i,
    {
        let m = mines[i];
        assert(mines@.take(i as int + 1) =~= mines@.take(i as int).push(m));
        place_one(&mut cells, m, Ghost(mines@.take(i as int)));
        i = i + 1;
    }
    proof {
        assert forall|j: int| 0 <= j < CELLS implies #[trigger] cells@[j] == board_of(
            mines@.take(k as int),
        )[j] by {
            lemma_position(j);
        }
        assert(cells@ =~= board_of(mines@.take(k as int)));
    }
    Board { cells }
}

impl Board {
    /// Builds the board on which every entry of `mines` is a mine and every
    /// other square counts the entries around it.
    pub fn from_mines(mines: &Vec<(usize, usize)>) -> (r: Board)
        requires
            all_in_bounds(mines@),
            mines@.len() <= 255,
        ensures
            r@ == board_of(mines@),
            mines@.no_duplicates() ==> {
                &&& bomb_count(r@) == mines@.len()
                &&& consistent(r@)
                &&& all_valid(r@)
            },
    {
        let r = build(mines, mines.len());
        assert(mines@.take(mines@.len() as int) =~= mines@);
        proof {
            if mines@.no_duplicates() {
                lemma_mine_total(mines@);
                lemma_counts_match_neighbours(mines@);
                lemma_counts_in_range(r@);
            }
        }
        r
    }

    /// Builds the board whose mines are the first `num_bombs` entries of
    /// `order`, or all of them where `order` is shorter.
    pub fn from_shuffled(order: &Vec<(usize, usize)>, num_bombs: u8) -> (r: Board)
        requires
            all_in_bounds(order@),
        ensures
            r@ == board_of(order@.take(capped(num_bombs as int, order@.len() as int))),
            order@.no_duplicates() ==> {
                &&& bomb_count(r@) == capped(num_bombs as int, order@.len() as int)
                &&& consistent(r@)
                &&& all_valid(r@)
            },
    {
        let k: usize = if (num_bombs as usize) < order.len() {
            num_bombs as usize
        } else {
            order.len()
        };
        let r = build(order, k);
        proof {
            let mines = order@.take(k as int);
            if order@.no_duplicates() {
                assert(mines.no_duplicates());
                lemma_mine_total(mines);
                lemma_counts_match_neighbours(mines);
                lemma_counts_in_range(r@);
            }
        }
        r
    }

    /// Generates a board with `num_bombs` mines, or one on every square where
    /// more are asked for, placed on squares drawn at random without repeats.
    pub fn gen(num_bombs: u8) -> (r: Board)
        ensures
            r@.len() == CELLS,
            bomb_count(r@) == capped(num_bombs as int, CELLS as int),
            consistent(r@),
            all_valid(r@),
            exists|order: Seq<(usize, usize)>|
                order.to_multiset() == canonical_coords().to_multiset() && r@ == board_of(
                    #[trigger] order.take(capped(num_bombs as int, CELLS as int)),
                ),
    {
        let mut order = all_coords();
        shuffle_coords(&mut order);
        proof {
            lemma_reordered_coords(order@);
        }
        Board::from_shuffled(&order, num_bombs)
    }

    /// The square in column `x` and row `y`.
    pub fn cell(&self, x: usize, y: usize) -> (r: BoardState)
        requires
            self@.len() == CELLS,
            in_bounds(x as int, y as int),
        ensures
            r == at(self@, x as int, y as int),
    {
        proof {
            lemma_index(x as int, y as int);
        }
        self.cells[y * WIDTH + x]
    }

    /// The board as text: one line per row, top row first, each square's
    /// token followed by a space, each line ended by a line break.
    pub fn render(&self) -> (r: String)
        requires
            self@.len() == CELLS,
            all_valid(self@),
        ensures
            r@ == board_text(self@),
    {
        let mut out = String::new();
        let mut y: usize = 0;
        while y < HEIGHT
            invariant
                y <= HEIGHT,
                self@.len() == CELLS,
                all_valid(self@),
                out@ == rows_text(self@, y as int),
            decreases HEIGHT - y,
        {
            let mut x: usize = 0;
            while x < WIDTH
                invariant
                    x <= WIDTH,
                    y < HEIGHT,
                    self@.len() == CELLS,
                    all_valid(self@),
                    out@ == rows_text(self@, y as int) + row_prefix_text(self@, y as int, x as int),
                decreases WIDTH - x,
            {
                proof {
                    lemma_index(x as int, y as int);
                }
                let c = self.cell(x, y);
                out.append(c.glyph());
                out.append(" ");
                x = x + 1;
            }
            out.append("\n");
            y = y + 1;
        }
        out
    }
}

} // verus!
