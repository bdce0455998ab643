use minesweeper::board::Board;
use minesweeper::cell::BoardState;
use minesweeper::model::{CELLS, HEIGHT, N_BOMBS, WIDTH};
use minesweeper::placer::all_coords;

const BOMB: &str = "||`\u{1f4a3}`||";
const BLANK: &str = "||`\u{25ab}\u{fe0f}`||";

fn squares(b: &Board) -> Vec<BoardState> {
    let mut v = Vec::new();
    for y in 0..HEIGHT {
        for x in 0..WIDTH {
            v.push(b.cell(x, y));
        }
    }
    v
}

fn bombs(b: &Board) -> usize {
    squares(b).iter().filter(|s| **s == BoardState::Bomb).count()
}

fn mines_next_to(b: &Board, x: usize, y: usize) -> u8 {
    let mut n = 0u8;
    for dx in -1i64..=1 {
        for dy in -1i64..=1 {
            let (nx, ny) = (x as i64 + dx, y as i64 + dy);
            if (dx, dy) != (0, 0)
                && nx >= 0
                && ny >= 0
                && (nx as usize) < WIDTH
                && (ny as usize) < HEIGHT
                && b.cell(nx as usize, ny as usize) == BoardState::Bomb
            {
                n += 1;
            }
        }
    }
    n
}

fn assert_consistent(b: &Board) {
    for y in 0..HEIGHT {
        for x in 0..WIDTH {
            let n = mines_next_to(b, x, y);
            match b.cell(x, y) {
                BoardState::Bomb => {}
                BoardState::Empty => assert_eq!(n, 0),
                BoardState::Count(c) => {
                    assert_eq!(c, n);
                    assert!((1..=8).contains(&c));
                }
            }
        }
    }
}

#[test]
fn inc_steps_through_counts() {
    let mut s = BoardState::Empty;
    s.inc();
    assert_eq!(s, BoardState::Count(1));
    s.inc();
    assert_eq!(s, BoardState::Count(2));
    let mut c = BoardState::Count(7);
    c.inc();
    assert_eq!(c, BoardState::Count(8));
}

#[test]
fn inc_leaves_a_mine() {
    let mut s = BoardState::Bomb;
    s.inc();
    assert_eq!(s, BoardState::Bomb);
}

#[test]
fn default_square_is_empty() {
    assert_eq!(BoardState::default(), BoardState::Empty);
}

#[test]
fn glyphs_show_each_state() {
    assert_eq!(BoardState::Empty.glyph(), BLANK);
    assert_eq!(BoardState::Bomb.glyph(), BOMB);
    assert_eq!(BoardState::Count(1).glyph(), "||`1\u{fe0f}\u{20e3}`||");
    assert_eq!(BoardState::Count(8).glyph(), "||`8\u{fe0f}\u{20e3}`||");
}

#[test]
fn one_mine_in_corner() {
    let b = Board::from_mines(&vec![(0, 0)]);
    assert_eq!(b.cell(0, 0), BoardState::Bomb);
    assert_eq!(b.cell(1, 0), BoardState::Count(1));
    assert_eq!(b.cell(0, 1), BoardState::Count(1));
    assert_eq!(b.cell(1, 1), BoardState::Count(1));
    let empty = squares(&b).iter().filter(|s| **s == BoardState::Empty).count();
    assert_eq!(empty, 60);
}

#[test]
fn mine_in_the_middle_counts_eight_neighbours() {
    let b = Board::from_mines(&vec![(3, 4)]);
    for x in 2..=4 {
        for y in 3..=5 {
            if (x, y) != (3, 4) {
                assert_eq!(b.cell(x, y), BoardState::Count(1));
            }
        }
    }
    assert_eq!(b.cell(5, 4), BoardState::Empty);
    assert_eq!(b.cell(3, 2), BoardState::Empty);
}

#[test]
fn counts_add_up_between_mines() {
    let b = Board::from_mines(&vec![(0, 0), (2, 0), (1, 2)]);
    assert_eq!(b.cell(1, 0), BoardState::Count(2));
    assert_eq!(b.cell(1, 1), BoardState::Count(3));
    assert_eq!(b.cell(0, 1), BoardState::Count(2));
    assert_eq!(b.cell(3, 1), BoardState::Count(1));
    assert_eq!(b.cell(0, 3), BoardState::Count(1));
    assert_consistent(&b);
}

#[test]
fn mine_ringed_by_mines_stays_a_mine() {
    let mut mines = Vec::new();
    for x in 0..3 {
        for y in 0..3 {
            mines.push((x, y));
        }
    }
    let b = Board::from_mines(&mines);
    assert_eq!(b.cell(1, 1), BoardState::Bomb);
    assert_eq!(b.cell(3, 1), BoardState::Count(3));
    assert_eq!(b.cell(3, 3), BoardState::Count(1));
    assert_eq!(bombs(&b), 9);
    assert_consistent(&b);
}

#[test]
fn same_mines_give_same_board() {
    let mines = vec![(1, 2), (5, 5), (7, 0), (6, 6)];
    let a = Board::from_mines(&mines);
    let b = Board::from_mines(&mines);
    assert_eq!(squares(&a), squares(&b));
    let reordered = vec![(6, 6), (7, 0), (1, 2), (5, 5)];
    let c = Board::from_mines(&reordered);
    assert_eq!(squares(&a), squares(&c));
}

#[test]
fn no_mines_gives_blank_board() {
    let b = Board::gen(0);
    assert!(squares(&b).iter().all(|s| *s == BoardState::Empty));
    let text = b.render();
    assert!(!text.contains(BOMB));
    assert!(!text.contains('\u{20e3}'));
    assert_eq!(text.matches(BLANK).count(), CELLS);
    let c = Board::from_mines(&vec![]);
    assert_eq!(squares(&c), squares(&b));
}

#[test]
fn full_board_is_all_mines() {
    let b = Board::gen(64);
    assert!(squares(&b).iter().all(|s| *s == BoardState::Bomb));
    let text = b.render();
    for line in text.lines() {
        let tokens: Vec<&str> = line.split_whitespace().collect();
        assert_eq!(tokens, vec![BOMB; WIDTH]);
    }
}

#[test]
fn request_above_capacity_is_capped() {
    let b = Board::gen(200);
    assert_eq!(bombs(&b), CELLS);
}

#[test]
fn generated_board_has_requested_mines() {
    for n in [1u8, 5, N_BOMBS, 40, 63] {
        let b = Board::gen(n);
        assert_eq!(bombs(&b), n as usize);
    }
}

#[test]
fn generated_board_counts_are_exact() {
    for _ in 0..20 {
        let b = Board::gen(N_BOMBS);
        assert_consistent(&b);
    }
    assert_consistent(&Board::gen(40));
}

#[test]
fn generated_mines_vary() {
    let first: Vec<BoardState> = squares(&Board::from_shuffled(&all_coords(), N_BOMBS));
    let mut differs = false;
    for _ in 0..10 {
        if squares(&Board::gen(N_BOMBS)) != first {
            differs = true;
        }
    }
    assert!(differs);
}

#[test]
fn shuffled_order_takes_a_prefix() {
    let order = vec![(7, 7), (0, 0), (3, 3)];
    let b = Board::from_shuffled(&order, 2);
    assert_eq!(b.cell(7, 7), BoardState::Bomb);
    assert_eq!(b.cell(0, 0), BoardState::Bomb);
    assert_eq!(b.cell(3, 3), BoardState::Empty);
    assert_eq!(bombs(&b), 2);
    let all = Board::from_shuffled(&order, 9);
    assert_eq!(bombs(&all), 3);
}

#[test]
fn canonical_order_runs_column_by_column() {
    let c = all_coords();
    assert_eq!(c.len(), CELLS);
    assert_eq!(c[0], (0, 0));
    assert_eq!(c[1], (0, 1));
    assert_eq!(c[8], (1, 0));
    assert_eq!(c[63], (7, 7));
}

#[test]
fn render_lays_out_rows_and_columns() {
    let b = Board::from_mines(&vec![(0, 0), (5, 2)]);
    let text = b.render();
    assert!(text.ends_with('\n'));
    let lines: Vec<&str> = text.lines().collect();
    assert_eq!(lines.len(), HEIGHT);
    for (y, line) in lines.iter().enumerate() {
        let tokens: Vec<&str> = line.split(' ').filter(|t| !t.is_empty()).collect();
        assert_eq!(tokens.len(), WIDTH);
        assert!(line.ends_with(' '));
        for (x, t) in tokens.iter().enumerate() {
            assert_eq!(*t, b.cell(x, y).glyph());
        }
    }
    assert_eq!(lines[2].split(' ').nth(5), Some(BOMB));
    assert_eq!(lines[0].split(' ').nth(0), Some(BOMB));
    assert_eq!(lines[1].split(' ').nth(0), Some("||`1\u{fe0f}\u{20e3}`||"));
}
