//! Properties that hold across the library's operations.

use vstd::prelude::*;
use crate::grid::{self, Grid};
use crate::game::{self, App, Effect, GameState, Key};

verus! {

/// `solve` succeeds on a board exactly when `count_solutions` reports at
/// least one way to fill it.
pub proof fn law_solve_agrees_with_count(b: Grid, n: int)
    requires
        grid::counted(b, n),
    ensures
        (n >= 1) == grid::has_completion(b),
{
    reveal(grid::no_completion);
    grid::lemma_completion_cases(b);
}

/// A finished sudoku is the one and only completion of itself: the board that
/// puzzle making starts from has a unique answer.
pub proof fn law_finished_board_is_its_unique_completion(s: Grid)
    requires
        grid::is_solution(s),
    ensures
        grid::is_completion(s, s),
        grid::unique_completion(s),
{
    assert forall|r: int, c: int| grid::in_grid(r, c) implies #[trigger] grid::at(s, r, c) != 0 by {
        assert(grid::placed_ok(s, r, c));
    }
    grid::lemma_full_unique(s);
    assert(grid::unique_completion(s));
}

/// On a board with a unique completion, any completion is the stored
/// solution: two completions agree in every cell.
pub proof fn law_unique_puzzle_has_one_answer(b: Grid, s: Grid, t: Grid)
    requires
        grid::unique_completion(b),
        grid::is_completion(b, s),
        grid::is_completion(b, t),
    ensures
        grid::same_grid(s, t),
{
    grid::lemma_completion_cases(b);
    reveal(grid::two_completions);
    if !grid::same_grid(s, t) {
        assert(grid::two_completions(b));
    }
}

/// Emptying a cell while the board keeps a unique completion keeps the stored
/// finished sudoku as that one completion: the puzzle made by repeated
/// removals has exactly one answer, the stored solution.
pub proof fn law_removal_keeps_the_answer(b0: Grid, b1: Grid, r: int, c: int, s: Grid)
    requires
        grid::in_grid(r, c),
        grid::is_solution(s),
        grid::is_completion(b0, s),
        grid::updated(b0, b1, r, c, 0),
        grid::unique_completion(b1),
    ensures
        grid::is_completion(b1, s),
        forall|t: Grid| grid::is_completion(b1, t) ==> grid::same_grid(s, t),
{
    grid::lemma_clear_keeps_completion(b0, b1, r, c, s);
    assert forall|t: Grid| grid::is_completion(b1, t) implies grid::same_grid(s, t) by {
        law_unique_puzzle_has_one_answer(b1, s, t);
    }
}

/// A game started on a made puzzle: the given cells are exactly the filled
/// ones, each holds the solution's digit, and the stored solution is the
/// board's one completion.
pub proof fn law_started_game_has_one_answer(a: App)
    requires
        game::marks_filled(a.generated, a.sudoku_game.board),
        grid::has_unique_answer(a.sudoku_game.board, a.sudoku_game.solved_board),
    ensures
        forall|r: int, c: int|
            grid::in_grid(r, c) ==> {
                &&& a.generated[r][c] == (grid::at(a.sudoku_game.board, r, c) != 0)
                &&& grid::at(a.sudoku_game.board, r, c) != 0 ==> #[trigger] grid::at(
                    a.sudoku_game.board,
                    r,
                    c,
                ) == grid::at(a.sudoku_game.solved_board, r, c)
            },
        forall|t: Grid|
            grid::is_completion(a.sudoku_game.board, t) ==> grid::same_grid(
                a.sudoku_game.solved_board,
                t,
            ),
{
    assert forall|t: Grid| grid::is_completion(a.sudoku_game.board, t) implies grid::same_grid(
        a.sudoku_game.solved_board,
        t,
    ) by {
        law_unique_puzzle_has_one_answer(
            a.sudoku_game.board,
            a.sudoku_game.solved_board,
            t,
        );
    }
}

/// A key press never moves the cursor off the board.
pub proof fn law_cursor_stays_on_board(a: App, key: Key, b: App, e: Effect)
    requires
        a.key_transition(key, b, e),
        a.cursor_on_board(),
    ensures
        b.cursor_on_board(),
{
}

/// Outside the menu, key presses never change a cell that came with the
/// puzzle, which cells came with it, or the solution.
pub proof fn law_given_cells_are_fixed(a: App, key: Key, b: App, e: Effect)
    requires
        a.key_transition(key, b, e),
        a.game_state != GameState::Menu,
    ensures
        b.generated == a.generated,
        b.sudoku_game.solved_board == a.sudoku_game.solved_board,
        forall|r: int, c: int|
            grid::in_grid(r, c) && a.generated[r][c] ==> #[trigger] grid::at(
                b.sudoku_game.board,
                r,
                c,
            ) == grid::at(a.sudoku_game.board, r, c),
{
    if a.game_state == GameState::Playing {
        if (key.is_digit() || key == Key::Backspace) && !a.cursor_cell_given() {
            assert forall|r: int, c: int|
                grid::in_grid(r, c) && a.generated[r][c] implies #[trigger] grid::at(
                b.sudoku_game.board,
                r,
                c,
            ) == grid::at(a.sudoku_game.board, r, c) by {
                assert(r != a.cursor_x || c != a.cursor_y);
            }
        }
    }
}

/// The menu cursor stays on one of the four menu entries.
pub proof fn law_menu_cursor_in_range(a: App, key: Key, b: App, e: Effect)
    requires
        a.key_transition(key, b, e),
        a.menu_cursor <= 3,
    ensures
        b.menu_cursor <= 3,
{
}

/// The number of cells to empty stays between 5 and 56.
pub proof fn law_missing_count_in_range(a: App, key: Key, b: App, e: Effect)
    requires
        a.key_transition(key, b, e),
        5 <= a.missing_vals <= 56,
    ensures
        5 <= b.missing_vals <= 56,
{
}

/// The win popup selects either Restart (0) or Quit (1).
pub proof fn law_popup_choice_in_range(a: App, key: Key, b: App, e: Effect)
    requires
        a.key_transition(key, b, e),
        a.popup_selected <= 1,
    ensures
        b.popup_selected <= 1,
{
}

/// Once the game is asked to quit, it stays so.
pub proof fn law_quit_is_final(a: App, key: Key, b: App, e: Effect)
    requires
        a.key_transition(key, b, e),
        a.should_quit,
    ensures
        b.should_quit,
{
}

/// During play, a key press wins the game exactly when it writes a digit
/// that leaves the board equal to the solution.
pub proof fn law_win_exactly_on_solution(a: App, key: Key, b: App, e: Effect)
    requires
        a.key_transition(key, b, e),
        a.game_state == GameState::Playing,
    ensures
        (b.game_state == GameState::Won) == (key.is_digit() && !a.cursor_cell_given()
            && grid::same_grid(b.sudoku_game.board, b.sudoku_game.solved_board)),
{
}

/// Only Enter in the menu asks for a new puzzle.
pub proof fn law_new_puzzle_only_from_menu(a: App, key: Key, b: App, e: Effect)
    requires
        a.key_transition(key, b, e),
    ensures
        (e == Effect::NewPuzzle) == (a.game_state == GameState::Menu && key == Key::Enter),
{
}

/// Emptying any one cell of a finished sudoku leaves a puzzle whose one
/// completion is that sudoku; so the first removal step of puzzle making
/// always empties the cell it draws.
pub proof fn law_one_cell_off_a_solution_has_one_answer(s: Grid, g: Grid, r: int, c: int)
    requires
        grid::is_solution(s),
        grid::in_grid(r, c),
        grid::updated(s, g, r, c, 0),
    ensures
        grid::has_unique_answer(g, s),
        forall|t: Grid| grid::is_completion(g, t) ==> grid::same_grid(s, t),
{
    grid::lemma_one_cell_off_solution(s, g, r, c);
    assert forall|t: Grid| grid::is_completion(g, t) implies grid::same_grid(s, t) by {
        law_unique_puzzle_has_one_answer(g, s, t);
    }
}

/// During play, a digit key writes exactly the cell drawn under the cursor:
/// the highlighted cell takes the digit, every other cell keeps its value.
pub proof fn law_digit_writes_the_highlighted_cell(
    a: App,
    key: Key,
    b: App,
    e: Effect,
    r: int,
    c: int,
)
    requires
        a.game_state == GameState::Playing,
        a.cursor_on_board(),
        key.is_digit(),
        !a.cursor_cell_given(),
        a.key_transition(key, b, e),
        grid::in_grid(r, c),
    ensures
        a.look_of(r, c).under_cursor ==> grid::at(b.sudoku_game.board, r, c) == key.digit(),
        !a.look_of(r, c).under_cursor ==> grid::at(b.sudoku_game.board, r, c) == grid::at(
            a.sudoku_game.board,
            r,
            c,
        ),
{
}

/// Exactly one cell of the board is drawn under the cursor.
pub proof fn law_one_highlighted_cell(a: App, r1: int, c1: int, r2: int, c2: int)
    requires
        a.cursor_on_board(),
        grid::in_grid(r1, c1),
        grid::in_grid(r2, c2),
        a.look_of(r1, c1).under_cursor,
        a.look_of(r2, c2).under_cursor,
    ensures
        r1 == r2 && c1 == c2,
        a.look_of(a.cursor_x as int, a.cursor_y as int).under_cursor,
{
}

/// In the menu, Up moves to the previous of the four entries and wraps from
/// the first to the last.
pub proof fn law_menu_up_moves_back(a: App, b: App, e: Effect)
    requires
        a.game_state == GameState::Menu,
        a.menu_cursor <= 3,
        a.key_transition(Key::Up, b, e),
    ensures
        b.menu_cursor == (a.menu_cursor + 3) % 4,
        b.game_state == GameState::Menu,
        b.missing_vals == a.missing_vals,
{
}

/// In the menu, Down moves to the next of the four entries and wraps from the
/// last to the first.
pub proof fn law_menu_down_moves_on(a: App, b: App, e: Effect)
    requires
        a.game_state == GameState::Menu,
        a.menu_cursor <= 3,
        a.key_transition(Key::Down, b, e),
    ensures
        b.menu_cursor == (a.menu_cursor + 1) % 4,
        b.game_state == GameState::Menu,
        b.missing_vals == a.missing_vals,
{
}

/// In the menu, Up undoes Down and Down undoes Up.
pub proof fn law_menu_up_undoes_down(a: App, b: App, c: App, e1: Effect, e2: Effect)
    requires
        a.game_state == GameState::Menu,
        a.menu_cursor <= 3,
        a.key_transition(Key::Down, b, e1) || a.key_transition(Key::Up, b, e1),
        a.key_transition(Key::Down, b, e1) ==> b.key_transition(Key::Up, c, e2),
        a.key_transition(Key::Up, b, e1) ==> b.key_transition(Key::Down, c, e2),
    ensures
        c == a,
{
}

/// During play, Left, 'a' and 'h' each move the cursor one column left (it
/// stays at the first column), and change nothing else.
pub proof fn law_left_keys_move_left(a: App, key: Key, b: App, e: Effect)
    requires
        a.game_state == GameState::Playing,
        key == Key::Left || key == Key::Char('a') || key == Key::Char('h'),
        a.key_transition(key, b, e),
    ensures
        b.cursor_y == if a.cursor_y > 0 { a.cursor_y - 1 } else { 0 },
        b == (App { cursor_y: b.cursor_y, ..a }),
        e == Effect::Nothing,
{
}

/// During play, Right, 'd' and 'l' each move the cursor one column right (it
/// stays at the last column), and change nothing else.
pub proof fn law_right_keys_move_right(a: App, key: Key, b: App, e: Effect)
    requires
        a.game_state == GameState::Playing,
        a.cursor_on_board(),
        key == Key::Right || key == Key::Char('d') || key == Key::Char('l'),
        a.key_transition(key, b, e),
    ensures
        b.cursor_y == if a.cursor_y < 8 { a.cursor_y + 1 } else { 8 },
        b == (App { cursor_y: b.cursor_y, ..a }),
        e == Effect::Nothing,
{
}

/// During play, Up, 'w' and 'k' each move the cursor one row up (it stays at
/// the first row), and change nothing else.
pub proof fn law_up_keys_move_up(a: App, key: Key, b: App, e: Effect)
    requires
        a.game_state == GameState::Playing,
        key == Key::Up || key == Key::Char('w') || key == Key::Char('k'),
        a.key_transition(key, b, e),
    ensures
        b.cursor_x == if a.cursor_x > 0 { a.cursor_x - 1 } else { 0 },
        b == (App { cursor_x: b.cursor_x, ..a }),
        e == Effect::Nothing,
{
}

/// During play, Down, 's' and 'j' each move the cursor one row down (it
/// stays at the last row), and change nothing else.
pub proof fn law_down_keys_move_down(a: App, key: Key, b: App, e: Effect)
    requires
        a.game_state == GameState::Playing,
        a.cursor_on_board(),
        key == Key::Down || key == Key::Char('s') || key == Key::Char('j'),
        a.key_transition(key, b, e),
    ensures
        b.cursor_x == if a.cursor_x < 8 { a.cursor_x + 1 } else { 8 },
        b == (App { cursor_x: b.cursor_x, ..a }),
        e == Effect::Nothing,
{
}

/// During play, a left key then a right key bring the cursor back to its
/// column when it was not at the first one.
pub proof fn law_left_then_right_returns(a: App, b: App, c: App, e1: Effect, e2: Effect)
    requires
        a.game_state == GameState::Playing,
        a.cursor_on_board(),
        0 < a.cursor_y,
        a.key_transition(Key::Char('h'), b, e1),
        b.key_transition(Key::Char('l'), c, e2),
    ensures
        c == a,
{
}

} // verus!
