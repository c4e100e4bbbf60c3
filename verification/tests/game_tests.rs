use sudoku::game::{App, CellLook, Effect, GameState, Key, Tint};
use sudoku::sudoku::Sudoku;

fn solved() -> [[u8; 9]; 9] {
    let rows = [
        "534678912", "672195348", "198342567", "859761423", "426853791", "713924856",
        "961537284", "287419635", "345286179",
    ];
    let mut g = [[0u8; 9]; 9];
    for r in 0..9 {
        for (c, ch) in rows[r].chars().enumerate() {
            g[r][c] = ch.to_digit(10).unwrap() as u8;
        }
    }
    g
}

/// A game in play whose board is the solution with cells (0,0) and (8,8) empty.
fn playing() -> App {
    let mut board = solved();
    board[0][0] = 0;
    board[8][8] = 0;
    let mut generated = [[true; 9]; 9];
    generated[0][0] = false;
    generated[8][8] = false;
    App {
        sudoku_game: Sudoku { board, solved_board: solved() },
        cursor_x: 0,
        cursor_y: 0,
        generated,
        should_quit: false,
        game_state: GameState::Playing,
        popup_selected: 0,
        menu_cursor: 0,
        missing_vals: 30,
    }
}

fn menu() -> App {
    App { game_state: GameState::Menu, ..playing() }
}

fn won() -> App {
    App { game_state: GameState::Won, ..playing() }
}

#[test]
fn won_popup_toggles_with_left_and_right() {
    let mut a = won();
    assert_eq!(a.handle_key_event(Key::Left), Effect::Nothing);
    assert_eq!(a.popup_selected, 1);
    a.handle_key_event(Key::Right);
    assert_eq!(a.popup_selected, 0);
    a.popup_selected = 7;
    a.handle_key_event(Key::Right);
    assert_eq!(a.popup_selected, 0);
}

#[test]
fn won_popup_restart_goes_to_menu() {
    let mut a = won();
    a.handle_key_event(Key::Enter);
    assert_eq!(a.game_state, GameState::Menu);
    assert_eq!(a.popup_selected, 0);
    assert!(!a.should_quit);
}

#[test]
fn won_popup_quit_exits() {
    let mut a = won();
    a.popup_selected = 1;
    a.handle_key_event(Key::Enter);
    assert!(a.should_quit);
    assert_eq!(a.game_state, GameState::Won);
    let mut b = won();
    b.handle_key_event(Key::Char('q'));
    assert!(b.should_quit);
}

#[test]
fn playing_moves_the_cursor_within_the_board() {
    let mut a = playing();
    a.handle_key_event(Key::Up);
    assert_eq!((a.cursor_x, a.cursor_y), (0, 0));
    a.handle_key_event(Key::Char('s'));
    a.handle_key_event(Key::Down);
    a.handle_key_event(Key::Char('j'));
    assert_eq!(a.cursor_x, 3);
    a.handle_key_event(Key::Char('d'));
    a.handle_key_event(Key::Right);
    a.handle_key_event(Key::Char('l'));
    assert_eq!(a.cursor_y, 3);
    a.handle_key_event(Key::Char('a'));
    a.handle_key_event(Key::Left);
    assert_eq!(a.cursor_y, 1);
    a.handle_key_event(Key::Char('k'));
    a.handle_key_event(Key::Char('w'));
    assert_eq!(a.cursor_x, 1);
    for _ in 0..20 {
        a.handle_key_event(Key::Down);
        a.handle_key_event(Key::Right);
    }
    assert_eq!((a.cursor_x, a.cursor_y), (8, 8));
}

#[test]
fn playing_digit_fills_an_open_cell() {
    let mut a = playing();
    a.handle_key_event(Key::Char('4'));
    assert_eq!(a.sudoku_game.board[0][0], 4);
    assert_eq!(a.game_state, GameState::Playing);
}

#[test]
fn playing_digit_leaves_a_given_cell() {
    let mut a = playing();
    a.cursor_y = 1;
    a.handle_key_event(Key::Char('4'));
    assert_eq!(a.sudoku_game.board[0][1], 3);
    a.handle_key_event(Key::Backspace);
    assert_eq!(a.sudoku_game.board[0][1], 3);
}

#[test]
fn playing_backspace_clears_an_open_cell() {
    let mut a = playing();
    a.handle_key_event(Key::Char('9'));
    assert_eq!(a.sudoku_game.board[0][0], 9);
    a.handle_key_event(Key::Backspace);
    assert_eq!(a.sudoku_game.board[0][0], 0);
}

#[test]
fn playing_wins_when_the_board_matches_the_solution() {
    let mut a = playing();
    a.handle_key_event(Key::Char('5'));
    assert_eq!(a.game_state, GameState::Playing);
    a.cursor_x = 8;
    a.cursor_y = 8;
    a.handle_key_event(Key::Char('1'));
    assert_eq!(a.game_state, GameState::Playing);
    a.handle_key_event(Key::Char('9'));
    assert_eq!(a.game_state, GameState::Won);
}

#[test]
fn playing_ignores_other_keys_and_quits_on_q() {
    let mut a = playing();
    a.handle_key_event(Key::Char('0'));
    a.handle_key_event(Key::Char('x'));
    a.handle_key_event(Key::Other);
    a.handle_key_event(Key::Enter);
    assert_eq!(a.sudoku_game.board, playing().sudoku_game.board);
    assert!(!a.should_quit);
    a.handle_key_event(Key::Char('q'));
    assert!(a.should_quit);
}

#[test]
fn menu_cursor_wraps_around() {
    let mut a = menu();
    a.handle_key_event(Key::Up);
    assert_eq!(a.menu_cursor, 3);
    a.handle_key_event(Key::Down);
    assert_eq!(a.menu_cursor, 0);
    a.handle_key_event(Key::Down);
    a.handle_key_event(Key::Down);
    assert_eq!(a.menu_cursor, 2);
}

#[test]
fn menu_custom_count_moves_between_five_and_fifty_six() {
    let mut a = menu();
    a.menu_cursor = 3;
    a.missing_vals = 6;
    a.handle_key_event(Key::Left);
    assert_eq!(a.missing_vals, 5);
    a.handle_key_event(Key::Left);
    assert_eq!(a.missing_vals, 5);
    a.missing_vals = 55;
    a.handle_key_event(Key::Right);
    assert_eq!(a.missing_vals, 56);
    a.handle_key_event(Key::Right);
    assert_eq!(a.missing_vals, 56);
    a.menu_cursor = 1;
    a.handle_key_event(Key::Left);
    assert_eq!(a.missing_vals, 56);
}

#[test]
fn menu_enter_asks_for_a_puzzle() {
    for (cursor, expected) in [(0u8, 30u8), (1, 40), (2, 50), (3, 17)] {
        let mut a = menu();
        a.menu_cursor = cursor;
        a.missing_vals = 17;
        assert_eq!(a.handle_key_event(Key::Enter), Effect::NewPuzzle);
        assert_eq!(a.missing_vals, expected);
        assert_eq!(a.sudoku_game.board, [[0; 9]; 9]);
        assert_eq!(a.game_state, GameState::Menu);
    }
}

#[test]
fn menu_q_quits() {
    let mut a = menu();
    assert_eq!(a.handle_key_event(Key::Char('q')), Effect::Nothing);
    assert!(a.should_quit);
}

#[test]
fn begin_play_marks_the_filled_cells() {
    let mut a = menu();
    a.cursor_x = 4;
    a.cursor_y = 7;
    a.generated = [[false; 9]; 9];
    a.begin_play();
    assert_eq!(a.game_state, GameState::Playing);
    assert_eq!((a.cursor_x, a.cursor_y), (0, 0));
    for r in 0..9 {
        for c in 0..9 {
            assert_eq!(a.generated[r][c], a.sudoku_game.board[r][c] != 0);
        }
    }
    assert!(!a.generated[0][0]);
    assert!(a.generated[0][1]);
}

#[test]
fn check_win_condition_needs_every_cell() {
    let mut a = playing();
    a.check_win_condition();
    assert_eq!(a.game_state, GameState::Playing);
    a.sudoku_game.board = solved();
    a.check_win_condition();
    assert_eq!(a.game_state, GameState::Won);
}

#[test]
fn reset_and_exit() {
    let mut a = won();
    a.popup_selected = 1;
    a.reset_game();
    assert_eq!(a.game_state, GameState::Menu);
    assert_eq!(a.popup_selected, 0);
    a.exit();
    assert!(a.should_quit);
}

#[test]
fn default_missing_vals_only_fills_an_unset_count() {
    let mut a = menu();
    a.missing_vals = 0;
    a.default_missing_vals();
    assert_eq!(a.missing_vals, 30);
    a.missing_vals = 12;
    a.default_missing_vals();
    assert_eq!(a.missing_vals, 12);
}

#[test]
fn cell_look_tells_given_entered_and_empty_cells() {
    let mut a = playing();
    a.handle_key_event(Key::Char('7'));
    assert_eq!(
        a.cell_look(0, 0),
        CellLook { value: 7, tint: Tint::Entered, under_cursor: true }
    );
    assert_eq!(
        a.cell_look(0, 1),
        CellLook { value: 3, tint: Tint::Given, under_cursor: false }
    );
    assert_eq!(
        a.cell_look(8, 8),
        CellLook { value: 0, tint: Tint::Plain, under_cursor: false }
    );
}

#[test]
fn keys_never_leave_the_cursor_off_the_board() {
    let keys = [
        Key::Up, Key::Down, Key::Left, Key::Right, Key::Enter, Key::Backspace,
        Key::Char('w'), Key::Char('s'), Key::Char('a'), Key::Char('d'), Key::Char('5'),
        Key::Other,
    ];
    let mut a = playing();
    for i in 0..200usize {
        let k = keys[(i * 7 + i / 3) % keys.len()];
        a.handle_key_event(k);
        assert!(a.cursor_x < 9 && a.cursor_y < 9);
        if a.game_state != GameState::Playing {
            a.game_state = GameState::Playing;
        }
    }
}

#[test]
fn keys_never_change_given_cells() {
    let keys = [Key::Char('1'), Key::Backspace, Key::Down, Key::Right, Key::Char('9')];
    let mut a = playing();
    let before = a.sudoku_game.board;
    for i in 0..100usize {
        a.handle_key_event(keys[i % keys.len()]);
        for r in 0..9 {
            for c in 0..9 {
                if a.generated[r][c] {
                    assert_eq!(a.sudoku_game.board[r][c], before[r][c]);
                }
            }
        }
    }
}

#[test]
fn quit_stays_set() {
    let mut a = playing();
    a.should_quit = true;
    for k in [Key::Enter, Key::Left, Key::Char('3'), Key::Backspace] {
        a.handle_key_event(k);
        assert!(a.should_quit);
    }
}

#[test]
fn only_menu_enter_asks_for_a_puzzle() {
    for mut a in [playing(), won()] {
        assert_eq!(a.handle_key_event(Key::Enter), Effect::Nothing);
    }
    let mut m = menu();
    for k in [Key::Up, Key::Down, Key::Left, Key::Right, Key::Char('x')] {
        assert_eq!(m.handle_key_event(k), Effect::Nothing);
        assert!(m.menu_cursor <= 3);
    }
    assert_eq!(m.handle_key_event(Key::Enter), Effect::NewPuzzle);
}
