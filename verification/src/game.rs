//! The game around the board: menu, play and the win popup, driven by keys.

use vstd::prelude::*;
use crate::grid::{self, Grid};
use crate::sudoku::Sudoku;

verus! {

#[derive(Clone, Copy, Debug, PartialEq, Eq, Structural)]
pub enum GameState {
    Menu,
    Playing,
    Won,
}

/// A key press, as the game reads it.
#[derive(Clone, Copy, Debug, PartialEq, Eq, Structural)]
pub enum Key {
    Left,
    Right,
    Up,
    Down,
    Enter,
    Backspace,
    Char(char),
    Other,
}

/// What the caller must do after a key press.
#[derive(Clone, Copy, Debug, PartialEq, Eq, Structural)]
pub enum Effect {
    /// Nothing beyond the new state.
    Nothing,
    /// Make a new puzzle with `missing_vals` empty cells on the (emptied)
    /// board, then call `begin_play`.
    NewPuzzle,
}

/// How a cell's digit is coloured on screen.
#[derive(Clone, Copy, Debug, PartialEq, Eq, Structural)]
pub enum Tint {
    /// An empty cell.
    Plain,
    /// A digit that came with the puzzle.
    Given,
    /// A digit that the player entered.
    Entered,
}

/// What the screen shows of one cell.
#[derive(Clone, Copy, Debug, PartialEq, Eq, Structural)]
pub struct CellLook {
    /// The digit shown; 0 shows as a dot.
    pub value: u8,
    pub tint: Tint,
    /// The cursor is on this cell.
    pub under_cursor: bool,
}

pub struct App {
    pub sudoku_game: Sudoku,
    pub cursor_x: u8,
    pub cursor_y: u8,
    pub generated: [[bool; 9]; 9],
    pub should_quit: bool,
    pub game_state: GameState,
    pub popup_selected: u8,
    pub menu_cursor: u8,
    pub missing_vals: u8,
}

impl Key {
    pub open spec fn moves_up(self) -> bool {
        self == Key::Up || self == Key::Char('w') || self == Key::Char('k')
    }

    pub open spec fn moves_down(self) -> bool {
        self == Key::Down || self == Key::Char('s') || self == Key::Char('j')
    }

    pub open spec fn moves_left(self) -> bool {
        self == Key::Left || self == Key::Char('a') || self == Key::Char('h')
    }

    pub open spec fn moves_right(self) -> bool {
        self == Key::Right || self == Key::Char('d') || self == Key::Char('l')
    }

    /// A digit key '1'..'9'.
    pub open spec fn is_digit(self) -> bool {
        self matches Key::Char(c) && '1' <= c <= '9'
    }

    /// The digit of a digit key.
    pub open spec fn digit(self) -> u8 {
        match self {
            Key::Char(c) => (c as int - '0' as int) as u8,
            _ => 0,
        }
    }
}

/// The board `b` as it stands, with `generated` marking its filled cells.
pub open spec fn marks_filled(generated: [[bool; 9]; 9], b: Grid) -> bool {
    forall|r: int, c: int| grid::in_grid(r, c) ==> #[trigger] generated[r][c] == (grid::at(b, r, c) != 0)
}

impl App {
    /// The cell under the cursor may be read: the cursor lies on the board.
    pub open spec fn cursor_on_board(self) -> bool {
        self.cursor_x < 9 && self.cursor_y < 9
    }

    /// Keys for which the game reads the cell under the cursor.
    pub open spec fn key_reads_cell(self, key: Key) -> bool {
        self.game_state == GameState::Playing && (key == Key::Backspace || key.is_digit())
    }

    /// The state after `check_win_condition`.
    pub open spec fn after_win_check(self) -> App {
        if grid::same_grid(self.sudoku_game.board, self.sudoku_game.solved_board) {
            App { game_state: GameState::Won, ..self }
        } else {
            self
        }
    }

    /// The move that a key makes on the win popup.
    pub open spec fn won_step(self, key: Key) -> App {
        if key == Key::Left || key == Key::Right {
            App { popup_selected: if self.popup_selected == 0 { 1 } else { 0 }, ..self }
        } else if key == Key::Enter {
            if self.popup_selected == 0 {
                App { game_state: GameState::Menu, popup_selected: 0, ..self }
            } else {
                App { should_quit: true, ..self }
            }
        } else if key == Key::Char('q') {
            App { should_quit: true, ..self }
        } else {
            self
        }
    }

    /// The move that a key makes during play, when it writes no cell.
    pub open spec fn play_move(self, key: Key) -> App {
        if key == Key::Char('q') {
            App { should_quit: true, ..self }
        } else if key.moves_up() {
            App { cursor_x: if self.cursor_x > 0 { (self.cursor_x - 1) as u8 } else { 0 }, ..self }
        } else if key.moves_down() {
            App {
                cursor_x: if self.cursor_x < 8 { (self.cursor_x + 1) as u8 } else { self.cursor_x },
                ..self
            }
        } else if key.moves_left() {
            App { cursor_y: if self.cursor_y > 0 { (self.cursor_y - 1) as u8 } else { 0 }, ..self }
        } else if key.moves_right() {
            App {
                cursor_y: if self.cursor_y < 8 { (self.cursor_y + 1) as u8 } else { self.cursor_y },
                ..self
            }
        } else {
            self
        }
    }

    /// The move that a key makes in the menu, apart from Enter.
    pub open spec fn menu_move(self, key: Key) -> App {
        if key == Key::Up {
            App {
                menu_cursor: if self.menu_cursor == 0 { 3 } else { (self.menu_cursor - 1) as u8 },
                ..self
            }
        } else if key == Key::Down {
            App {
                menu_cursor: if self.menu_cursor == 3 { 0 } else { (self.menu_cursor + 1) as u8 },
                ..self
            }
        } else if key == Key::Left {
            App {
                missing_vals: if self.menu_cursor == 3 && self.missing_vals > 5 {
                    (self.missing_vals - 1) as u8
                } else {
                    self.missing_vals
                },
                ..self
            }
        } else if key == Key::Right {
            App {
                missing_vals: if self.menu_cursor == 3 && self.missing_vals < 56 {
                    (self.missing_vals + 1) as u8
                } else {
                    self.missing_vals
                },
                ..self
            }
        } else if key == Key::Char('q') {
            App { should_quit: true, ..self }
        } else {
            self
        }
    }

    /// The number of cells to empty for the menu entry under the cursor.
    pub open spec fn chosen_missing(self) -> u8 {
        if self.menu_cursor == 0 {
            30
        } else if self.menu_cursor == 1 {
            40
        } else if self.menu_cursor == 2 {
            50
        } else {
            self.missing_vals
        }
    }

    /// Whether the cell under the cursor came with the puzzle.
    pub open spec fn cursor_cell_given(self) -> bool {
        self.generated[self.cursor_x as int][self.cursor_y as int]
    }

    /// `new` and `effect` are what `handle_key_event` makes of `self` and `key`.
    pub open spec fn key_transition(self, key: Key, new: App, effect: Effect) -> bool {
        match self.game_state {
            GameState::Won => effect == Effect::Nothing && new == self.won_step(key),
            GameState::Menu => if key == Key::Enter {
                &&& effect == Effect::NewPuzzle
                &&& grid::is_empty_grid(new.sudoku_game.board)
                &&& new == App {
                    sudoku_game: Sudoku {
                        board: new.sudoku_game.board,
                        solved_board: self.sudoku_game.solved_board,
                    },
                    missing_vals: self.chosen_missing(),
                    ..self
                }
            } else {
                effect == Effect::Nothing && new == self.menu_move(key)
            },
            GameState::Playing => {
                &&& effect == Effect::Nothing
                &&& if key.is_digit() && !self.cursor_cell_given() {
                    &&& grid::updated(
                        self.sudoku_game.board,
                        new.sudoku_game.board,
                        self.cursor_x as int,
                        self.cursor_y as int,
                        key.digit(),
                    )
                    &&& new == App {
                        sudoku_game: Sudoku {
                            board: new.sudoku_game.board,
                            solved_board: self.sudoku_game.solved_board,
                        },
                        ..self
                    }.after_win_check()
                } else if key == Key::Backspace && !self.cursor_cell_given() {
                    &&& grid::updated(
                        self.sudoku_game.board,
                        new.sudoku_game.board,
                        self.cursor_x as int,
                        self.cursor_y as int,
                        0,
                    )
                    &&& new == App {
                        sudoku_game: Sudoku {
                            board: new.sudoku_game.board,
                            solved_board: self.sudoku_game.solved_board,
                        },
                        ..self
                    }
                } else if key.is_digit() || key == Key::Backspace {
                    new == self
                } else {
                    new == self.play_move(key)
                }
            },
        }
    }

    /// Applies one key press to the game. In the menu, Enter empties the
    /// board, settles the number of cells to empty and asks the caller for a
    /// new puzzle.
    pub fn handle_key_event(&mut self, key: Key) -> (effect: Effect)
        requires
            old(self).key_reads_cell(key) ==> old(self).cursor_on_board(),
            old(self).game_state == GameState::Menu && key == Key::Down ==> old(self).menu_cursor
                < 255,
        ensures
            old(self).key_transition(key, *final(self), effect),
    {
        match self.game_state {
            GameState::Won => {
                match key {
                    Key::Left | Key::Right => {
                        if self.popup_selected == 0 {
                            self.popup_selected = 1;
                        } else {
                            self.popup_selected = 0;
                        }
                    },
                    Key::Enter => {
                        if self.popup_selected == 0 {
                            self.reset_game();
                        } else {
                            self.exit();
                        }
                    },
                    Key::Char('q') => self.exit(),
                    _ => {},
                }
                Effect::Nothing
            },
            GameState::Playing => {
                match key {
                    Key::Char('q') => self.exit(),
                    Key::Up | Key::Char('w') | Key::Char('k') => {
                        if self.cursor_x > 0 {
                            self.cursor_x -= 1;
                        }
                    },
                    Key::Down | Key::Char('s') | Key::Char('j') => {
                        if self.cursor_x < 8 {
                            self.cursor_x += 1;
                        }
                    },
                    Key::Left | Key::Char('a') | Key::Char('h') => {
                        if self.cursor_y > 0 {
                            self.cursor_y -= 1;
                        }
                    },
                    Key::Right | Key::Char('d') | Key::Char('l') => {
                        if self.cursor_y < 8 {
                            self.cursor_y += 1;
                        }
                    },
                    Key::Char(c) => {
                        if '1' <= c && c <= '9' && !self.generated[self.cursor_x as usize][self.cursor_y as usize] {
                            let d = (c as u32 - '0' as u32) as u8;
                            self.sudoku_game.set_cell(self.cursor_x as usize, self.cursor_y as usize, d);
                            self.check_win_condition();
                        }
                    },
                    Key::Backspace => {
                        if !self.generated[self.cursor_x as usize][self.cursor_y as usize] {
                            self.sudoku_game.set_cell(self.cursor_x as usize, self.cursor_y as usize, 0);
                        }
                    },
                    _ => {},
                }
                Effect::Nothing
            },
            GameState::Menu => {
                match key {
                    Key::Up => {
                        if self.menu_cursor == 0 {
                            self.menu_cursor = 3;
                        } else {
                            self.menu_cursor -= 1;
                        }
                        Effect::Nothing
                    },
                    Key::Down => {
                        if self.menu_cursor == 3 {
                            self.menu_cursor = 0;
                        } else {
                            self.menu_cursor += 1;
                        }
                        Effect::Nothing
                    },
                    Key::Left => {
                        if self.menu_cursor == 3 && self.missing_vals > 5 {
                            self.missing_vals -= 1;
                        }
                        Effect::Nothing
                    },
                    Key::Right => {
                        if self.menu_cursor == 3 && self.missing_vals < 56 {
                            self.missing_vals += 1;
                        }
                        Effect::Nothing
                    },
                    Key::Enter => {
                        let target = match self.menu_cursor {
                            0 => 30,
                            1 => 40,
                            2 => 50,
                            _ => self.missing_vals,
                        };
                        self.missing_vals = target;
                        self.sudoku_game.board = [[0; 9]; 9];
                        Effect::NewPuzzle
                    },
                    Key::Char('q') => {
                        self.exit();
                        Effect::Nothing
                    },
                    _ => Effect::Nothing,
                }
            },
        }
    }

    /// Starts play on a freshly made puzzle: its filled cells become the
    /// given ones, the cursor goes to the top-left cell.
    pub fn begin_play(&mut self)
        ensures
            marks_filled(final(self).generated, final(self).sudoku_game.board),
            *final(self) == (App {
                generated: final(self).generated,
                cursor_x: 0,
                cursor_y: 0,
                game_state: GameState::Playing,
                ..*old(self)
            }),
    {
        let mut generated = [[false; 9]; 9];
        let mut row_index: usize = 0;
        while row_index < 9
            invariant
                row_index <= 9,
                forall|r: int, c: int|
                    grid::in_grid(r, c) ==> #[trigger] generated[r][c] == (r < row_index && grid::at(
                        self.sudoku_game.board,
                        r,
                        c,
                    ) != 0),
            decreases 9 - row_index,
        {
            let mut line = [false; 9];
            let mut col_index: usize = 0;
            while col_index < 9
                invariant
                    row_index < 9,
                    col_index <= 9,
                    forall|c: int|
                        0 <= c < 9 ==> #[trigger] line[c] == (c < col_index && grid::at(
                            self.sudoku_game.board,
                            row_index as int,
                            c,
                        ) != 0),
                decreases 9 - col_index,
            {
                let cell = self.sudoku_game.board[row_index][col_index];
                assert(cell == grid::at(self.sudoku_game.board, row_index as int, col_index as int));
                if cell != 0 {
                    line[col_index] = true;
                }
                col_index += 1;
            }
            generated[row_index] = line;
            row_index += 1;
        }
        self.generated = generated;
        self.cursor_x = 0;
        self.cursor_y = 0;
        self.game_state = GameState::Playing;
    }

    /// Back to the menu from the win popup.
    pub fn reset_game(&mut self)
        ensures
            *final(self) == (App { game_state: GameState::Menu, popup_selected: 0, ..*old(self) }),
    {
        self.game_state = GameState::Menu;
        self.popup_selected = 0;
    }

    /// Asks the game loop to stop.
    pub fn exit(&mut self)
        ensures
            *final(self) == (App { should_quit: true, ..*old(self) }),
    {
        self.should_quit = true;
    }

    /// The game is won once every cell of the board matches the solution.
    pub fn check_win_condition(&mut self)
        ensures
            *final(self) == old(self).after_win_check(),
    {
        let mut correct = true;
        let mut i: usize = 0;
        while i < 9
            invariant
                i <= 9,
                correct <==> forall|r: int, c: int|
                    0 <= r < i && 0 <= c < 9 ==> #[trigger] grid::at(self.sudoku_game.board, r, c)
                        == grid::at(self.sudoku_game.solved_board, r, c),
            decreases 9 - i,
        {
            let mut j: usize = 0;
            while j < 9
                invariant
                    i < 9,
                    j <= 9,
                    correct <==> forall|r: int, c: int|
                        (0 <= r < i && 0 <= c < 9) || (r == i && 0 <= c < j) ==> #[trigger] grid::at(
                            self.sudoku_game.board,
                            r,
                            c,
                        ) == grid::at(self.sudoku_game.solved_board, r, c),
                decreases 9 - j,
            {
                let x = self.sudoku_game.board[i][j];
                let y = self.sudoku_game.solved_board[i][j];
                assert(x == grid::at(self.sudoku_game.board, i as int, j as int));
                assert(y == grid::at(self.sudoku_game.solved_board, i as int, j as int));
                if x != y {
                    correct = false;
                }
                j += 1;
            }
            i += 1;
        }
        if correct {
            self.game_state = GameState::Won;
        }
    }

    /// Before the game loop starts, an unset number of cells to empty becomes 30.
    pub fn default_missing_vals(&mut self)
        ensures
            *final(self) == (App {
                missing_vals: if old(self).missing_vals == 0 { 30 } else { old(self).missing_vals },
                ..*old(self)
            }),
    {
        if self.missing_vals == 0 {
            self.missing_vals = 30;
        }
    }

    /// What the screen shows of cell (row, col).
    pub open spec fn look_of(self, row: int, col: int) -> CellLook {
        let value = grid::at(self.sudoku_game.board, row, col);
        CellLook {
            value,
            tint: if value == 0 {
                Tint::Plain
            } else if self.generated[row][col] {
                Tint::Given
            } else {
                Tint::Entered
            },
            under_cursor: row == self.cursor_x && col == self.cursor_y,
        }
    }

    /// What the screen shows of cell (row, col): its digit (or a dot), the
    /// colour for a given or an entered digit, and whether the cursor is on it.
    pub fn cell_look(&self, row: usize, col: usize) -> (look: CellLook)
        requires
            row < 9,
            col < 9,
        ensures
            look == self.look_of(row as int, col as int),
    {
        let value = self.sudoku_game.board[row][col];
        assert(value == grid::at(self.sudoku_game.board, row as int, col as int));
        let tint = if value == 0 {
            Tint::Plain
        } else if self.generated[row][col] {
            Tint::Given
        } else {
            Tint::Entered
        };
        CellLook {
            value,
            tint,
            under_cursor: row == self.cursor_x as usize && col == self.cursor_y as usize,
        }
    }
}

} // verus!
