use sudoku::sudoku::Sudoku;

const PUZZLE: [&str; 9] = [
    "53..7....",
    "6..195...",
    ".98....6.",
    "8...6...3",
    "4..8.3..1",
    "7...2...6",
    ".6....28.",
    "...419..5",
    "....8..79",
];

const SOLUTION: [&str; 9] = [
    "534678912",
    "672195348",
    "198342567",
    "859761423",
    "426853791",
    "713924856",
    "961537284",
    "287419635",
    "345286179",
];

fn grid(rows: [&str; 9]) -> [[u8; 9]; 9] {
    let mut g = [[0u8; 9]; 9];
    for (r, line) in rows.iter().enumerate() {
        for (c, ch) in line.chars().enumerate() {
            g[r][c] = if ch == '.' { 0 } else { ch.to_digit(10).unwrap() as u8 };
        }
    }
    g
}

fn game(rows: [&str; 9]) -> Sudoku {
    Sudoku { board: grid(rows), solved_board: [[0; 9]; 9] }
}

fn is_finished(g: &[[u8; 9]; 9]) -> bool {
    for r in 0..9 {
        for c in 0..9 {
            let v = g[r][c];
            if v < 1 || v > 9 {
                return false;
            }
            for i in 0..9 {
                for j in 0..9 {
                    let unit = i == r || j == c || (i / 3 == r / 3 && j / 3 == c / 3);
                    if (i, j) != (r, c) && unit && g[i][j] == v {
                        return false;
                    }
                }
            }
        }
    }
    true
}

fn keeps_givens(puzzle: &[[u8; 9]; 9], g: &[[u8; 9]; 9]) -> bool {
    (0..9).all(|r| (0..9).all(|c| puzzle[r][c] == 0 || puzzle[r][c] == g[r][c]))
}

#[test]
fn is_safe_rejects_row_column_and_box() {
    let s = game(PUZZLE);
    // 5 is already in row 0
    assert!(!s.is_safe(0, 2, 5));
    // 8 is in column 0 (row 3)
    assert!(!s.is_safe(1, 0, 8));
    // 9 is in the top-left box (row 2, col 1)
    assert!(!s.is_safe(1, 2, 9));
    // 4 fits at (0, 2)
    assert!(s.is_safe(0, 2, 4));
    // 1 fits at (0, 2) as far as row, column and box go
    assert!(s.is_safe(0, 2, 1));
    // 2 is in neither row 0, column 2 nor the top-left box
    assert!(s.is_safe(0, 2, 2));
}

#[test]
fn is_safe_on_empty_board_accepts_every_digit() {
    let s = Sudoku { board: [[0; 9]; 9], solved_board: [[0; 9]; 9] };
    for r in 0..9u8 {
        for c in 0..9u8 {
            for n in 1..10u8 {
                assert!(s.is_safe(r, c, n));
            }
        }
    }
}

#[test]
fn solve_fills_the_classic_puzzle() {
    let mut s = game(PUZZLE);
    assert!(s.solve());
    assert_eq!(s.board, grid(SOLUTION));
    assert!(is_finished(&s.board));
    assert_eq!(s.solved_board, [[0; 9]; 9]);
}

#[test]
fn solve_on_full_board_keeps_it() {
    let mut s = game(SOLUTION);
    assert!(s.solve());
    assert_eq!(s.board, grid(SOLUTION));
}

#[test]
fn solve_fails_and_restores_an_impossible_board() {
    // Row 0 holds 1..8, and column 8 already holds the 9 that row 0 needs.
    let mut rows = [[0u8; 9]; 9];
    for c in 0..8 {
        rows[0][c] = (c + 1) as u8;
    }
    rows[4][8] = 9;
    let mut s = Sudoku { board: rows, solved_board: [[0; 9]; 9] };
    assert!(!s.solve());
    assert_eq!(s.board, rows);
}

#[test]
fn solve_fills_an_empty_board_with_a_finished_sudoku() {
    let mut s = Sudoku { board: [[0; 9]; 9], solved_board: [[0; 9]; 9] };
    assert!(s.solve());
    assert!(is_finished(&s.board));
    // the smallest digit first, in reading order
    assert_eq!(s.board[0], [1, 2, 3, 4, 5, 6, 7, 8, 9]);
}

#[test]
fn count_solutions_of_full_board_is_one() {
    let mut s = game(SOLUTION);
    assert_eq!(s.count_solutions(), 1);
    assert_eq!(s.board, grid(SOLUTION));
}

#[test]
fn count_solutions_of_classic_puzzle_is_one() {
    let mut s = game(PUZZLE);
    assert_eq!(s.count_solutions(), 1);
    assert_eq!(s.board, grid(PUZZLE));
}

#[test]
fn count_solutions_of_impossible_board_is_zero() {
    let mut rows = [[0u8; 9]; 9];
    for c in 0..8 {
        rows[0][c] = (c + 1) as u8;
    }
    rows[4][8] = 9;
    let mut s = Sudoku { board: rows, solved_board: [[0; 9]; 9] };
    assert_eq!(s.count_solutions(), 0);
    assert_eq!(s.board, rows);
}

#[test]
fn count_solutions_of_empty_board_is_at_least_two() {
    let mut s = Sudoku { board: [[0; 9]; 9], solved_board: [[0; 9]; 9] };
    let n = s.count_solutions();
    assert!(n >= 2);
    assert_eq!(s.board, [[0; 9]; 9]);
}

#[test]
fn count_solutions_with_several_ways_reports_at_least_two() {
    // With the top band empty, swapping two of its rows gives another filling.
    let mut g = grid(SOLUTION);
    for c in 0..9 {
        g[0][c] = 0;
        g[1][c] = 0;
        g[2][c] = 0;
    }
    let mut s = Sudoku { board: g, solved_board: [[0; 9]; 9] };
    let n = s.count_solutions();
    assert!(n >= 2);
    assert_eq!(s.board, g);
}

#[test]
fn solve_agrees_with_count_solutions() {
    for rows in [PUZZLE, SOLUTION] {
        let mut a = game(rows);
        let mut b = game(rows);
        assert_eq!(a.solve(), b.count_solutions() >= 1);
    }
    let mut rows = [[0u8; 9]; 9];
    for c in 0..8 {
        rows[0][c] = (c + 1) as u8;
    }
    rows[4][8] = 9;
    let mut a = Sudoku { board: rows, solved_board: [[0; 9]; 9] };
    let mut b = Sudoku { board: rows, solved_board: [[0; 9]; 9] };
    assert_eq!(a.solve(), b.count_solutions() >= 1);
}

#[test]
fn remove_cell_skips_an_empty_cell() {
    let mut s = game(PUZZLE);
    assert!(!s.remove_cell(0, 2));
    assert_eq!(s.board, grid(PUZZLE));
}

#[test]
fn remove_cell_empties_a_cell_of_a_finished_board() {
    let mut s = Sudoku { board: grid(SOLUTION), solved_board: grid(SOLUTION) };
    assert!(s.remove_cell(4, 4));
    assert_eq!(s.board[4][4], 0);
    assert_eq!(s.solved_board, grid(SOLUTION));
    assert_eq!(s.count_solutions(), 1);
}

#[test]
fn remove_cell_refuses_when_the_answer_would_not_be_unique() {
    // With the top band empty the board already has several completions,
    // so emptying any further filled cell must be refused.
    let mut g = grid(SOLUTION);
    for c in 0..9 {
        g[0][c] = 0;
        g[1][c] = 0;
        g[2][c] = 0;
    }
    let mut s = Sudoku { board: g, solved_board: grid(SOLUTION) };
    assert!(!s.remove_cell(5, 5));
    assert_eq!(s.board, g);
}

#[test]
fn generate_solution_makes_a_finished_board() {
    let mut rng = rand::rng();
    let mut s = Sudoku { board: [[0; 9]; 9], solved_board: [[0; 9]; 9] };
    assert!(s.generate_solution(&mut rng));
    assert!(is_finished(&s.board));
    assert_eq!(s.board, s.solved_board);
}

#[test]
fn generate_solution_shuffles_the_diagonal_boxes() {
    let mut rng = rand::rng();
    let mut seen = Vec::new();
    for _ in 0..6 {
        let mut s = Sudoku { board: [[0; 9]; 9], solved_board: [[0; 9]; 9] };
        s.generate_solution(&mut rng);
        for b in 0..3 {
            let mut digits: Vec<u8> = Vec::new();
            for i in 0..3 {
                for j in 0..3 {
                    digits.push(s.board[3 * b + i][3 * b + j]);
                }
            }
            digits.sort();
            assert_eq!(digits, vec![1, 2, 3, 4, 5, 6, 7, 8, 9]);
        }
        seen.push(s.board);
    }
    assert!(seen.iter().any(|b| *b != seen[0]));
}

#[test]
fn removals_keep_the_stored_solution_unique() {
    let mut rng = rand::rng();
    let mut s = Sudoku { board: [[0; 9]; 9], solved_board: [[0; 9]; 9] };
    s.generate_solution(&mut rng);
    let mut removed = 0;
    for r in 0..9u8 {
        for c in 0..9u8 {
            if removed < 30 && s.remove_cell(r, c) {
                removed += 1;
            }
        }
    }
    assert!(removed > 0);
    assert!(keeps_givens(&s.board, &s.solved_board));
    assert_eq!(s.count_solutions(), 1);
    let mut copy = Sudoku { board: s.board, solved_board: [[0; 9]; 9] };
    assert!(copy.solve());
    assert_eq!(copy.board, s.solved_board);
}

#[test]
fn print_text_frames_the_board() {
    let s = game(PUZZLE);
    let text = String::from_utf8(s.print_text()).unwrap();
    let expected = "\
+-------+-------+-------+
| 5 3 . | . 7 . | . . . | 
| 6 . . | 1 9 5 | . . . | 
| . 9 8 | . . . | . 6 . | 
+-------+-------+-------+
| 8 . . | . 6 . | . . 3 | 
| 4 . . | 8 . 3 | . . 1 | 
| 7 . . | . 2 . | . . 6 | 
+-------+-------+-------+
| . 6 . | . . . | 2 8 . | 
| . . . | 4 1 9 | . . 5 | 
| . . . | . 8 . | . 7 9 | 
+-------+-------+-------+
";
    assert_eq!(text, expected);
}

#[test]
fn print_text_writes_large_values_in_decimal() {
    let mut g = [[0u8; 9]; 9];
    g[0][0] = 12;
    g[0][1] = 255;
    let s = Sudoku { board: g, solved_board: [[0; 9]; 9] };
    let text = String::from_utf8(s.print_text()).unwrap();
    let second = text.lines().nth(1).unwrap();
    assert_eq!(second, "| 12 255 . | . . . | . . . | ");
}

#[test]
fn count_solutions_never_exceeds_the_completions() {
    // A Latin-square sudoku in which the digits 1 and 2 of four cells can swap:
    // exactly two completions.
    let rows = [
        "123456789", "456789123", "789123456", "214365897", "365897214", "897214365",
        "531642978", "642978531", "978531642",
    ];
    let mut g = grid(rows);
    g[0][0] = 0;
    g[0][1] = 0;
    g[3][0] = 0;
    g[3][1] = 0;
    let mut s = Sudoku { board: g, solved_board: [[0; 9]; 9] };
    assert_eq!(s.count_solutions(), 2);
    assert_eq!(s.board, g);
}

#[test]
fn remove_random_cell_empties_cells_all_over_the_board() {
    let mut rng = rand::rng();
    let mut s = Sudoku { board: grid(SOLUTION), solved_board: grid(SOLUTION) };
    let mut removed = 0;
    for _ in 0..200 {
        let before = s.board.iter().flatten().filter(|v| **v == 0).count();
        let done = s.remove_random_cell(&mut rng);
        let after = s.board.iter().flatten().filter(|v| **v == 0).count();
        if done {
            removed += 1;
            assert_eq!(after, before + 1);
        } else {
            assert_eq!(after, before);
        }
    }
    assert!(removed > 1);
    assert!(keeps_givens(&s.board, &s.solved_board));
    assert_eq!(s.count_solutions(), 1);
}

#[test]
fn generate_solution_stores_the_first_completion_of_the_seeded_board() {
    let mut rng = rand::rng();
    let mut s = Sudoku { board: [[0; 9]; 9], solved_board: [[0; 9]; 9] };
    assert!(s.generate_solution(&mut rng));
    let mut seeded = [[0u8; 9]; 9];
    for b in 0..3 {
        for i in 0..3 {
            for j in 0..3 {
                seeded[3 * b + i][3 * b + j] = s.board[3 * b + i][3 * b + j];
            }
        }
    }
    let mut again = Sudoku { board: seeded, solved_board: [[0; 9]; 9] };
    assert!(again.solve());
    assert_eq!(again.board, s.solved_board);
}

#[test]
fn generator_empties_the_asked_number_of_cells() {
    let mut rng = rand::rng();
    let mut s = Sudoku { board: [[0; 9]; 9], solved_board: [[0; 9]; 9] };
    let mut left = s.generator(&mut rng, 30, 1000);
    while left > 0 {
        left = s.remove_cells(&mut rng, left, 1000);
    }
    assert_eq!(s.board.iter().flatten().filter(|v| **v == 0).count(), 30);
    assert!(is_finished(&s.solved_board));
    assert!(keeps_givens(&s.board, &s.solved_board));
    let mut copy = Sudoku { board: s.board, solved_board: [[0; 9]; 9] };
    assert_eq!(copy.count_solutions(), 1);
    assert!(copy.solve());
    assert_eq!(copy.board, s.solved_board);
}

#[test]
fn remove_cells_stops_after_its_attempts() {
    let mut rng = rand::rng();
    let mut s = Sudoku { board: grid(SOLUTION), solved_board: grid(SOLUTION) };
    assert_eq!(s.remove_cells(&mut rng, 5, 0), 5);
    assert_eq!(s.board, grid(SOLUTION));
    let left = s.remove_cells(&mut rng, 5, 1);
    assert!(left == 4 || left == 5);
}

#[test]
fn seed_and_solve_writes_the_orders_into_the_diagonal_boxes() {
    let first = vec![9, 8, 7, 6, 5, 4, 3, 2, 1];
    let second = vec![1, 2, 3, 4, 5, 6, 7, 8, 9];
    let third = vec![5, 1, 9, 2, 6, 3, 7, 4, 8];
    let mut s = Sudoku { board: [[0; 9]; 9], solved_board: [[0; 9]; 9] };
    assert!(s.seed_and_solve(&first, &second, &third));
    for i in 0..3 {
        for j in 0..3 {
            assert_eq!(s.board[i][j], first[3 * i + j]);
            assert_eq!(s.board[3 + i][3 + j], second[3 * i + j]);
            assert_eq!(s.board[6 + i][6 + j], third[3 * i + j]);
        }
    }
    assert!(is_finished(&s.board));
    assert_eq!(s.board, s.solved_board);
}
