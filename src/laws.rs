use vstd::prelude::*;

use crate::cell::{valid_state, BoardState};
use crate::model::{
    all_in_bounds, all_valid, at, board_of, bomb_at, bomb_count, consistent, counted, hits,
    in_bounds, index_of, lemma_board_at, lemma_index, lemma_placed_push, lemma_position, neighbour_bombs, placed,
    square_after, CELLS,
};

verus! {

/// One if some entry of `mines` names square (x, y), else zero.
spec fn mine_at(mines: Seq<(usize, usize)>, x: int, y: int) -> int {
    if placed(mines, x, y) {
        1
    } else {
        0
    }
}

/// How many of the squares around (x, y) some entry of `mines` names.
spec fn mines_around(mines: Seq<(usize, usize)>, x: int, y: int) -> int {
    mine_at(mines, x - 1, y - 1) + mine_at(mines, x, y - 1) + mine_at(mines, x + 1, y - 1)
        + mine_at(mines, x - 1, y) + mine_at(mines, x + 1, y) + mine_at(mines, x - 1, y + 1)
        + mine_at(mines, x, y + 1) + mine_at(mines, x + 1, y + 1)
}

/// In a sequence without repeats, the last entry names no square that an
/// earlier entry names.
proof fn lemma_last_is_new(mines: Seq<(usize, usize)>)
    requires
        mines.len() > 0,
        mines.no_duplicates(),
    ensures
        !placed(mines.drop_last(), mines.last().0 as int, mines.last().1 as int),
        mines.drop_last().no_duplicates(),
{
    let p = mines.drop_last();
    let m = mines.last();
    if placed(p, m.0 as int, m.1 as int) {
        let i = choose|i: int| 0 <= i < p.len() && #[trigger] p[i].0 == m.0 && p[i].1 == m.1;
        assert(mines[i] == mines[mines.len() - 1]);
    }
}

/// With no entry repeated, the count that placing `mines` leaves on a square
/// is the number of squares around it that an entry names.
proof fn lemma_hits_around(mines: Seq<(usize, usize)>, x: int, y: int)
    requires
        mines.no_duplicates(),
    ensures
        hits(mines, x, y) == mines_around(mines, x, y),
    decreases mines.len(),
{
    if mines.len() > 0 {
        let p = mines.drop_last();
        let m = mines.last();
        lemma_last_is_new(mines);
        lemma_hits_around(p, x, y);
        assert(p.push(m) =~= mines);
        assert forall|a: int, b: int|
            #[trigger] mine_at(mines, a, b) == mine_at(p, a, b) + if m.0 == a && m.1 == b {
                1int
            } else {
                0int
            } by {
            lemma_placed_push(p, m, a, b);
        }
    }
}

/// On the board built from `mines`, a square on the board holds a mine
/// exactly where an entry names it, and no square off the board counts.
proof fn lemma_bomb_at(mines: Seq<(usize, usize)>, x: int, y: int)
    requires
        all_in_bounds(mines),
    ensures
        bomb_at(board_of(mines), x, y) == mine_at(mines, x, y),
{
    if in_bounds(x, y) {
        lemma_board_at(mines, x, y);
    } else if placed(mines, x, y) {
        let i = choose|i: int| 0 <= i < mines.len() && #[trigger] mines[i].0 == x && mines[i].1 == y;
        assert(in_bounds(mines[i].0 as int, mines[i].1 as int));
    }
}

/// Placing mines on distinct squares of the board leaves every other square
/// showing exactly how many of its neighbours hold a mine.
pub proof fn lemma_counts_match_neighbours(mines: Seq<(usize, usize)>)
    requires
        mines.no_duplicates(),
        all_in_bounds(mines),
    ensures
        consistent(board_of(mines)),
{
    let b = board_of(mines);
    assert forall|x: int, y: int| in_bounds(x, y) implies (#[trigger] at(b, x, y) is Bomb || at(
        b,
        x,
        y,
    ) == counted(neighbour_bombs(b, x, y))) by {
        lemma_board_at(mines, x, y);
        lemma_hits_around(mines, x, y);
        assert forall|a: int, c: int| #[trigger] bomb_at(b, a, c) == mine_at(mines, a, c) by {
            lemma_bomb_at(mines, a, c);
        }
    }
}

/// On a board where every square agrees with its neighbours, each count lies
/// between one and eight.
pub proof fn lemma_counts_in_range(b: Seq<BoardState>)
    requires
        consistent(b),
    ensures
        all_valid(b),
{
    assert forall|i: int| 0 <= i < b.len() implies valid_state(#[trigger] b[i]) by {
        lemma_position(i);
        let x = i % (crate::model::WIDTH as int);
        let y = i / (crate::model::WIDTH as int);
        assert(at(b, x, y) == b[i]);
    }
}

/// Two boards that agree on which squares hold a mine hold as many mines.
proof fn lemma_count_same(s1: Seq<BoardState>, s2: Seq<BoardState>)
    requires
        s1.len() == s2.len(),
        forall|j: int| 0 <= j < s1.len() ==> (#[trigger] s1[j] is Bomb <==> s2[j] is Bomb),
    ensures
        bomb_count(s1) == bomb_count(s2),
    decreases s1.len(),
{
    if s1.len() > 0 {
        lemma_count_same(s1.drop_last(), s2.drop_last());
    }
}

/// A board with one more mine at position `k`, and the same mines elsewhere,
/// holds one mine more.
proof fn lemma_count_one_more(s1: Seq<BoardState>, s2: Seq<BoardState>, k: int)
    requires
        s1.len() == s2.len(),
        0 <= k < s1.len(),
        !(s1[k] is Bomb),
        s2[k] is Bomb,
        forall|j: int| 0 <= j < s1.len() && j != k ==> (#[trigger] s1[j] is Bomb <==> s2[j] is Bomb),
    ensures
        bomb_count(s2) == bomb_count(s1) + 1,
    decreases s1.len(),
{
    if k == s1.len() - 1 {
        lemma_count_same(s1.drop_last(), s2.drop_last());
    } else {
        lemma_count_one_more(s1.drop_last(), s2.drop_last(), k);
    }
}

/// Placing mines on distinct squares of the board leaves as many mines on it
/// as there are entries.
pub proof fn lemma_mine_total(mines: Seq<(usize, usize)>)
    requires
        mines.no_duplicates(),
        all_in_bounds(mines),
    ensures
        bomb_count(board_of(mines)) == mines.len(),
    decreases mines.len(),
{
    if mines.len() == 0 {
        let b = board_of(mines);
        assert forall|j: int| 0 <= j < b.len() implies !(#[trigger] b[j] is Bomb) by {}
        lemma_no_bombs(b);
    } else {
        let p = mines.drop_last();
        let m = mines.last();
        lemma_last_is_new(mines);
        assert(p.push(m) =~= mines);
        assert(all_in_bounds(p));
        lemma_mine_total(p);
        let k = index_of(m.0 as int, m.1 as int);
        assert(in_bounds(m.0 as int, m.1 as int));
        lemma_index(m.0 as int, m.1 as int);
        assert forall|j: int| 0 <= j < CELLS && j != k implies (#[trigger] board_of(p)[j] is Bomb
            <==> board_of(mines)[j] is Bomb) by {
            lemma_position(j);
            lemma_placed_push(p, m, j % (crate::model::WIDTH as int), j / (crate::model::WIDTH as int));
        }
        lemma_placed_push(p, m, m.0 as int, m.1 as int);
        lemma_count_one_more(board_of(p), board_of(mines), k);
    }
}

/// A board without mines counts none.
proof fn lemma_no_bombs(b: Seq<BoardState>)
    requires
        forall|j: int| 0 <= j < b.len() ==> !(#[trigger] b[j] is Bomb),
    ensures
        bomb_count(b) == 0,
    decreases b.len(),
{
    if b.len() > 0 {
        lemma_no_bombs(b.drop_last());
    }
}

/// Two placements without repeats that name the same set of squares build
/// the same board, whatever order their entries come in.
pub proof fn lemma_same_mines_same_board(a: Seq<(usize, usize)>, b: Seq<(usize, usize)>)
    requires
        a.no_duplicates(),
        b.no_duplicates(),
        a.to_set() == b.to_set(),
    ensures
        board_of(a) == board_of(b),
{
    assert forall|x: int, y: int| #[trigger] placed(a, x, y) == placed(b, x, y) by {
        if placed(a, x, y) {
            let i = choose|i: int| 0 <= i < a.len() && #[trigger] a[i].0 == x && a[i].1 == y;
            assert(a.contains(a[i]));
            assert(b.to_set().contains(a[i]));
            let j = choose|j: int| 0 <= j < b.len() && b[j] == a[i];
            assert(b[j].0 == x && b[j].1 == y);
        }
        if placed(b, x, y) {
            let i = choose|i: int| 0 <= i < b.len() && #[trigger] b[i].0 == x && b[i].1 == y;
            assert(b.contains(b[i]));
            assert(a.to_set().contains(b[i]));
            let j = choose|j: int| 0 <= j < a.len() && a[j] == b[i];
            assert(a[j].0 == x && a[j].1 == y);
        }
    }
    assert forall|i: int| 0 <= i < CELLS implies #[trigger] board_of(a)[i] == board_of(b)[i] by {
        let x = i % (crate::model::WIDTH as int);
        let y = i / (crate::model::WIDTH as int);
        lemma_hits_around(a, x, y);
        lemma_hits_around(b, x, y);
        assert(square_after(a, x, y) == square_after(b, x, y));
    }
    assert(board_of(a) =~= board_of(b));
}

} // verus!
