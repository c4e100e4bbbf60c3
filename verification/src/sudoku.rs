//! The sudoku board: placement rules, the backtracking solver and the
//! solution counter.

use vstd::prelude::*;
use crate::grid::{self, Grid};
use crate::random;
use rand::rngs::ThreadRng;

verus! {

pub struct Sudoku {
    pub board: [[u8; 9]; 9],
    pub solved_board: [[u8; 9]; 9],
}

impl Sudoku {
    /// Whether `number` may go in cell (row, col): it occurs nowhere in the
    /// cell's row, column or 3x3 box.
    pub fn is_safe(&self, row: u8, col: u8, number: u8) -> (res: bool)
        requires
            row < 9,
            col < 9,
        ensures
            res == grid::fits(self.board, row as int, col as int, number),
    {
        let r = row as usize;
        let c = col as usize;
        let mut column_check = false;
        let mut rows_check = false;
        let mut k: usize = 0;
        while k < 9
            invariant
                0 <= k <= 9,
                r < 9,
                c < 9,
                column_check <==> exists|i: int| 0 <= i < k && grid::at(self.board, i, c as int) == number,
                rows_check <==> exists|j: int| 0 <= j < k && grid::at(self.board, r as int, j) == number,
            decreases 9 - k,
        {
            let down = self.board[k][c];
            let across = self.board[r][k];
            assert(down == grid::at(self.board, k as int, c as int));
            assert(across == grid::at(self.board, r as int, k as int));
            if down == number {
                column_check = true;
            }
            if across == number {
                rows_check = true;
            }
            k += 1;
        }
        let check = !column_check && !rows_check;
        let res = self.threexthree(row, col, number);
        if check && res {
            true
        } else {
            false
        }
    }

    /// Whether `number` is absent from the 3x3 box of cell (row, col).
    fn threexthree(&self, row: u8, col: u8, number: u8) -> (res: bool)
        requires
            row < 9,
            col < 9,
        ensures
            res == forall|i: int, j: int|
                grid::in_grid(i, j) && grid::same_box(row as int, col as int, i, j)
                    ==> grid::at(self.board, i, j) != number,
    {
        let start_row = ((row / 3) * 3) as usize;
        let start_col = ((col / 3) * 3) as usize;
        let mut check = true;
        let mut i: usize = 0;
        while i < 3
            invariant
                0 <= i <= 3,
                start_row == (row / 3) * 3,
                start_col == (col / 3) * 3,
                row < 9,
                col < 9,
                check <==> forall|x: int, y: int|
                    start_row <= x < start_row + i && start_col <= y < start_col + 3
                        ==> grid::at(self.board, x, y) != number,
            decreases 3 - i,
        {
            let mut j: usize = 0;
            while j < 3
                invariant
                    0 <= i < 3,
                    0 <= j <= 3,
                    start_row == (row / 3) * 3,
                    start_col == (col / 3) * 3,
                    row < 9,
                    col < 9,
                    check <==> forall|x: int, y: int|
                        (start_row <= x < start_row + i && start_col <= y < start_col + 3) || (x
                            == start_row + i && start_col <= y < start_col + j)
                            ==> grid::at(self.board, x, y) != number,
                decreases 3 - j,
            {
                let v = self.board[start_row + i][start_col + j];
                assert(v == grid::at(self.board, (start_row + i) as int, (start_col + j) as int));
                if v == number {
                    check = false;
                }
                j += 1;
            }
            i += 1;
        }
        assert forall|x: int, y: int| grid::in_grid(x, y) implies (grid::same_box(
            row as int,
            col as int,
            x,
            y,
        ) <==> (start_row <= x < start_row + 3 && start_col <= y < start_col + 3)) by {}
        proof {
            if !check {
            let (x, y) = choose|x: int, y: int|
                start_row <= x < start_row + 3 && start_col <= y < start_col + 3 && grid::at(
                    self.board,
                    x,
                    y,
                ) == number;
            assert(grid::in_grid(x, y) && grid::same_box(row as int, col as int, x, y));
            }
        }
        check
    }

    /// Writes `value` into cell (row, col) of the board.
    pub(crate) fn set_cell(&mut self, row: usize, col: usize, value: u8)
        requires
            row < 9,
            col < 9,
        ensures
            grid::updated(old(self).board, final(self).board, row as int, col as int, value),
            final(self).solved_board == old(self).solved_board,
    {
        let mut line = self.board[row];
        line[col] = value;
        self.board[row] = line;
    }

    /// Fills the empty cells by backtracking: the first empty cell in reading
    /// order takes the smallest fitting digit from which the rest can be
    /// filled, so the board becomes its first completion in reading order.
    /// Returns whether the board could be filled; if not, the board is left
    /// as it was.
    pub fn solve(&mut self) -> (solved: bool)
        ensures
            solved == grid::has_completion(old(self).board),
            solved ==> grid::is_completion(old(self).board, final(self).board),
            solved ==> grid::first_completion(old(self).board, final(self).board),
            !solved ==> final(self).board == old(self).board,
            final(self).solved_board == old(self).solved_board,
        decreases grid::zero_count(old(self).board),
    {
        let ghost b0 = self.board;
        let mut row_index: usize = 0;
        while row_index < 9
            invariant
                row_index <= 9,
                b0 == old(self).board,
                self.board == b0,
                self.solved_board == old(self).solved_board,
                forall|i: int, j: int|
                    0 <= i < row_index && 0 <= j < 9 ==> #[trigger] grid::at(b0, i, j) != 0,
            decreases 9 - row_index,
        {
            let mut col_index: usize = 0;
            while col_index < 9
                invariant
                    row_index < 9,
                    col_index <= 9,
                    b0 == old(self).board,
                    self.board == b0,
                    self.solved_board == old(self).solved_board,
                    forall|i: int, j: int|
                        (0 <= i < row_index && 0 <= j < 9) || (i == row_index && 0 <= j < col_index)
                            ==> #[trigger] grid::at(b0, i, j) != 0,
                decreases 9 - col_index,
            {
                let cell = self.board[row_index][col_index];
                assert(cell == grid::at(b0, row_index as int, col_index as int));
                if cell == 0 {
                    let ghost r = row_index as int;
                    let ghost c = col_index as int;
                    let mut i: u8 = 1;
                    while i < 10
                        invariant
                            1 <= i <= 10,
                            row_index < 9,
                            col_index < 9,
                            r == row_index,
                            c == col_index,
                            grid::at(b0, r, c) == 0,
                            b0 == old(self).board,
                            self.board == b0,
                            self.solved_board == old(self).solved_board,
                            forall|s: Grid| grid::is_completion(b0, s) ==> grid::at(s, r, c) >= i,
                            forall|x: int, y: int|
                                grid::in_grid(x, y) && grid::before(x, y, r, c) ==> #[trigger] grid::at(
                                    b0,
                                    x,
                                    y,
                                ) != 0,
                        decreases 10 - i,
                    {
                        let fits = self.is_safe(row_index as u8, col_index as u8, i);
                        if fits {
                            self.set_cell(row_index, col_index, i);
                            let ghost b1 = self.board;
                            proof {
                                grid::lemma_zero_count_fill(b0, b1, r, c, i);
                            }
                            if self.solve() {
                                proof {
                                    grid::lemma_completion_step(b0, b1, r, c, i, self.board);
                                    grid::lemma_first_completion_step(b0, b1, r, c, i, self.board);
                                }
                                return true;
                            } else {
                                self.set_cell(row_index, col_index, 0);
                                proof {
                                    grid::lemma_same_grid_eq(self.board, b0);
                                    assert forall|s: Grid| grid::is_completion(b0, s) implies grid::at(
                                        s,
                                        r,
                                        c,
                                    ) >= i + 1 by {
                                        grid::lemma_completion_step(b0, b1, r, c, i, s);
                                    }
                                }
                            }
                        } else {
                            proof {
                                assert forall|s: Grid| grid::is_completion(b0, s) implies grid::at(
                                    s,
                                    r,
                                    c,
                                ) >= i + 1 by {
                                    grid::lemma_completion_fits(b0, s, r, c);
                                }
                            }
                        }
                        i += 1;
                    }
                    proof {
                        assert forall|s: Grid| !grid::is_completion(b0, s) by {
                            if grid::is_completion(b0, s) {
                                grid::lemma_completion_fits(b0, s, r, c);
                            }
                        }
                    }
                    return false;
                }
                col_index += 1;
            }
            row_index += 1;
        }
        proof {
            grid::lemma_full_is_own_completion(b0);
            grid::lemma_full_first_completion(b0);
        }
        true
    }

    /// Counts the ways to fill the empty cells, stopping as soon as two are
    /// found: 0 means none, 1 a unique one, 2 or more at least two. The board
    /// is left as it was.
    pub fn count_solutions(&mut self) -> (count: u8)
        ensures
            final(self).board == old(self).board,
            final(self).solved_board == old(self).solved_board,
            count == grid::search_count(old(self).board),
            grid::counted(old(self).board, count as int),
            exists|w: Seq<Grid>| w.len() == count && grid::distinct_completions(old(self).board, w),
            count <= grid::zero_count(old(self).board) + 1,
        decreases grid::zero_count(old(self).board),
    {
        let ghost b0 = self.board;
        proof {
            grid::lemma_zero_count_bound(b0);
        }
        let mut number_of_solutions: u8 = 0;
        let mut row_index: usize = 0;
        while row_index < 9
            invariant
                row_index <= 9,
                b0 == old(self).board,
                self.board == b0,
                self.solved_board == old(self).solved_board,
                number_of_solutions == 0,
                grid::zero_count(b0) <= 81,
                forall|i: int, j: int|
                    0 <= i < row_index && 0 <= j < 9 ==> #[trigger] grid::at(b0, i, j) != 0,
            decreases 9 - row_index,
        {
            let mut col_index: usize = 0;
            while col_index < 9
                invariant
                    row_index < 9,
                    col_index <= 9,
                    b0 == old(self).board,
                    self.board == b0,
                    self.solved_board == old(self).solved_board,
                    number_of_solutions == 0,
                    grid::zero_count(b0) <= 81,
                    forall|i: int, j: int|
                        (0 <= i < row_index && 0 <= j < 9) || (i == row_index && 0 <= j < col_index)
                            ==> #[trigger] grid::at(b0, i, j) != 0,
                decreases 9 - col_index,
            {
                let cell = self.board[row_index][col_index];
                assert(cell == grid::at(b0, row_index as int, col_index as int));
                if cell == 0 {
                    let ghost r = row_index as int;
                    let ghost c = col_index as int;
                    let ghost mut found: Seq<Grid> = Seq::empty();
                    proof {
                        assert(grid::first_empty(b0, r, c));
                        let (r2, c2) = choose|r2: int, c2: int| grid::first_empty(b0, r2, c2);
                        grid::lemma_first_empty_unique(b0, r, c, r2, c2);
                    }
                    let mut i: u8 = 1;
                    while i < 10
                        invariant
                            1 <= i <= 10,
                            row_index < 9,
                            col_index < 9,
                            r == row_index,
                            c == col_index,
                            grid::at(b0, r, c) == 0,
                            b0 == old(self).board,
                            self.board == b0,
                            self.solved_board == old(self).solved_board,
                            number_of_solutions <= 1,
                            grid::zero_count(b0) <= 81,
                            grid::count_progress(b0, r, c, i as int, number_of_solutions as int),
                            found.len() == number_of_solutions,
                            grid::distinct_completions(b0, found),
                            forall|k: int| 0 <= k < found.len() ==> grid::at(#[trigger] found[k], r, c) < i,
                            grid::first_empty(b0, r, c),
                            grid::search_count(b0) == grid::digits_count(
                                b0,
                                r,
                                c,
                                i as int,
                                number_of_solutions as int,
                            ),
                        decreases 10 - i,
                    {
                        let fits = self.is_safe(row_index as u8, col_index as u8, i);
                        if fits {
                            self.set_cell(row_index, col_index, i);
                            let ghost b1 = self.board;
                            proof {
                                grid::lemma_zero_count_fill(b0, b1, r, c, i);
                                grid::lemma_with_cell(b0, r, c, i);
                                grid::lemma_updated_unique(b0, b1, grid::with_cell(b0, r, c, i), r, c, i);
                            }
                            let sub = self.count_solutions();
                            proof {
                                grid::lemma_count_step(
                                    b0,
                                    b1,
                                    r,
                                    c,
                                    i,
                                    number_of_solutions as int,
                                    sub as int,
                                );
                                let more = choose|w: Seq<Grid>|
                                    w.len() == sub && grid::distinct_completions(b1, w);
                                grid::lemma_distinct_completions_step(b0, b1, r, c, i, found, more);
                                found = found + more;
                            }
                            number_of_solutions += sub;
                            self.set_cell(row_index, col_index, 0);
                            proof {
                                grid::lemma_same_grid_eq(self.board, b0);
                            }
                            if number_of_solutions > 1 {
                                proof {
                                    grid::lemma_completion_cases(b0);
                                }
                                return number_of_solutions;
                            }
                        } else {
                            proof {
                                grid::lemma_count_skip(b0, r, c, i, number_of_solutions as int);
                            }
                        }
                        i += 1;
                    }
                    proof {
                        grid::lemma_count_done(b0, r, c, number_of_solutions as int);
                    }
                    return number_of_solutions;
                }
                col_index += 1;
            }
            row_index += 1;
        }
        proof {
            assert forall|r2: int, c2: int| !grid::first_empty(b0, r2, c2) by {
                if grid::in_grid(r2, c2) {
                    assert(grid::at(b0, r2, c2) != 0);
                }
            }
            grid::lemma_full_unique(b0);
            grid::lemma_full_is_own_completion(b0);
            let w = seq![b0];
            assert(w[0] == b0);
            assert(w.len() == 1);
            assert(grid::distinct_completions(old(self).board, w));
        }
        return 1;
    }

    /// Writes the nine items of `nums` row by row into the box whose top-left
    /// cell is (start, start).
    fn seed_box(&mut self, start: usize, nums: &Vec<u8>)
        requires
            start == 0 || start == 3 || start == 6,
            nums@.len() == 9,
        ensures
            final(self).solved_board == old(self).solved_board,
            forall|x: int, y: int|
                grid::in_grid(x, y) ==> #[trigger] grid::at(final(self).board, x, y) == if start
                    <= x < start + 3 && start <= y < start + 3 {
                    nums@[3 * (x - start) + (y - start)]
                } else {
                    grid::at(old(self).board, x, y)
                },
    {
        let mut index: usize = 0;
        let mut i: usize = 0;
        while i < 3
            invariant
                start == 0 || start == 3 || start == 6,
                nums@.len() == 9,
                0 <= i <= 3,
                index == 3 * i,
                self.solved_board == old(self).solved_board,
                forall|x: int, y: int|
                    grid::in_grid(x, y) ==> #[trigger] grid::at(self.board, x, y) == if start <= x
                        < start + i && start <= y < start + 3 {
                        nums@[3 * (x - start) + (y - start)]
                    } else {
                        grid::at(old(self).board, x, y)
                    },
            decreases 3 - i,
        {
            let mut j: usize = 0;
            while j < 3
                invariant
                    start == 0 || start == 3 || start == 6,
                    nums@.len() == 9,
                    0 <= i < 3,
                    0 <= j <= 3,
                    index == 3 * i + j,
                    self.solved_board == old(self).solved_board,
                    forall|x: int, y: int|
                        grid::in_grid(x, y) ==> #[trigger] grid::at(self.board, x, y) == if (start
                            <= x < start + i && start <= y < start + 3) || (x == start + i && start
                            <= y < start + j) {
                            nums@[3 * (x - start) + (y - start)]
                        } else {
                            grid::at(old(self).board, x, y)
                        },
                decreases 3 - j,
            {
                self.set_cell(start + i, start + j, nums[index]);
                index += 1;
                j += 1;
            }
            i += 1;
        }
    }

    /// Fills the three diagonal boxes row by row from `first`, `second` and
    /// `third` (top-left, centre, bottom-right), solves the board and records
    /// the result as the solution. Returns whether the solver succeeded.
    pub fn seed_and_solve(&mut self, first: &Vec<u8>, second: &Vec<u8>, third: &Vec<u8>) -> (solved:
        bool)
        requires
            first@.len() == 9,
            second@.len() == 9,
            third@.len() == 9,
        ensures
            final(self).solved_board == final(self).board,
            seeded_and_solved(old(self).board, final(self).board, first@, second@, third@, solved),
            distinct_digits(first@) && distinct_digits(second@) && distinct_digits(third@)
                && grid::is_empty_grid(old(self).board) && solved ==> {
                &&& grid::is_solution(final(self).board)
                &&& grid::unique_completion(final(self).board)
            },
    {
        let ghost b0 = self.board;
        self.seed_box(0, first);
        self.seed_box(3, second);
        self.seed_box(6, third);
        let ghost g = self.board;
        assert(seeded_with(b0, g, first@, second@, third@));
        let solved = self.solve();
        self.solved_board = self.board;
        proof {
            if distinct_digits(first@) && distinct_digits(second@) && distinct_digits(third@)
                && grid::is_empty_grid(b0) && solved {
                lemma_seeded_boxes(b0, g, first@, second@, third@);
                grid::lemma_seeded_consistent(b0, g);
                grid::lemma_consistent_completion_solution(g, self.board);
                grid::lemma_solution_unique(self.board);
            }
        }
        solved
    }

    /// Shuffles the digits 1..9 three times in a row, seeding one diagonal
    /// box after each shuffle, then solves the board and records the result
    /// as the solution. Returns whether the solver succeeded.
    pub fn generate_solution(&mut self, rng: &mut ThreadRng) -> (solved: bool)
        ensures
            final(self).solved_board == final(self).board,
            exists|first: Seq<u8>, second: Seq<u8>, third: Seq<u8>|
                {
                    &&& distinct_digits(first)
                    &&& distinct_digits(second)
                    &&& distinct_digits(third)
                    &&& seeded_and_solved(
                        old(self).board,
                        final(self).board,
                        first,
                        second,
                        third,
                        solved,
                    )
                },
            grid::is_empty_grid(old(self).board) && solved ==> {
                &&& grid::is_solution(final(self).board)
                &&& grid::unique_completion(final(self).board)
            },
    {
        let mut nums: Vec<u8> = Vec::new();
        let mut k: u8 = 1;
        while k < 10
            invariant
                1 <= k <= 10,
                nums@.len() == k - 1,
                forall|i: int| 0 <= i < nums@.len() ==> nums@[i] == i + 1,
            decreases 10 - k,
        {
            nums.push(k);
            k += 1;
        }
        random::shuffle_digits(&mut nums, rng);
        proof {
            lemma_permutation_keeps_digits(nums@, seq![1u8, 2, 3, 4, 5, 6, 7, 8, 9]);
        }
        let first = nums.clone();
        random::shuffle_digits(&mut nums, rng);
        proof {
            lemma_permutation_keeps_digits(nums@, first@);
        }
        let second = nums.clone();
        random::shuffle_digits(&mut nums, rng);
        proof {
            lemma_permutation_keeps_digits(nums@, second@);
        }
        self.seed_and_solve(&first, &second, &nums)
    }

    /// One step of puzzle making: empties cell (row, col) if it is filled and
    /// the board keeps exactly one completion without it. Returns whether
    /// the cell was emptied; otherwise the board is left as it was.
    pub fn remove_cell(&mut self, row: u8, col: u8) -> (removed: bool)
        requires
            row < 9,
            col < 9,
        ensures
            final(self).solved_board == old(self).solved_board,
            removal_outcome(old(self).board, final(self).board, row as int, col as int, removed),
            removed ==> grid::zero_count(final(self).board) == grid::zero_count(old(self).board) + 1,
            grid::is_solution(old(self).board) ==> removed,
            grid::is_solution(old(self).solved_board) && grid::is_completion(
                old(self).board,
                old(self).solved_board,
            ) ==> grid::is_completion(final(self).board, final(self).solved_board),
    {
        let r = row as usize;
        let c = col as usize;
        let n = self.board[r][c];
        assert(n == grid::at(self.board, r as int, c as int));
        if n == 0 {
            proof {
                if grid::is_solution(self.board) {
                    assert(grid::placed_ok(self.board, r as int, c as int));
                }
            }
            return false;
        }
        let ghost b0 = self.board;
        self.set_cell(r, c, 0);
        let ghost b1 = self.board;
        proof {
            if grid::is_solution(self.solved_board) && grid::is_completion(b0, self.solved_board) {
                grid::lemma_clear_keeps_completion(b0, b1, r as int, c as int, self.solved_board);
            }
        }
        proof {
            if grid::is_solution(b0) {
                grid::lemma_one_cell_off_solution(b0, b1, r as int, c as int);
                grid::lemma_completion_cases(b1);
            }
        }
        if self.count_solutions() == 1 {
            proof {
                assert(grid::updated(b1, b0, r as int, c as int, n));
                grid::lemma_zero_count_fill(b1, b0, r as int, c as int, n);
            }
            true
        } else {
            self.set_cell(r, c, n);
            proof {
                grid::lemma_same_grid_eq(self.board, b0);
                assert forall|g: Grid| grid::updated(b0, g, r as int, c as int, 0) implies !grid::unique_completion(g) by {
                    grid::lemma_updated_unique(b0, g, b1, r as int, c as int, 0);
                }
            }
            false
        }
    }

    /// One step of puzzle making at a cell picked at random: a row and a
    /// column, each drawn from 0..9, then `remove_cell` there.
    pub fn remove_random_cell(&mut self, rng: &mut ThreadRng) -> (removed: bool)
        ensures
            final(self).solved_board == old(self).solved_board,
            exists|r: int, c: int|
                grid::in_grid(r, c) && #[trigger] removal_outcome(
                    old(self).board,
                    final(self).board,
                    r,
                    c,
                    removed,
                ),
            removed ==> grid::zero_count(final(self).board) == grid::zero_count(old(self).board) + 1,
            grid::is_solution(old(self).board) ==> removed,
            grid::is_solution(old(self).solved_board) && grid::is_completion(
                old(self).board,
                old(self).solved_board,
            ) ==> grid::is_completion(final(self).board, final(self).solved_board),
    {
        let row = random::random_index(rng, 9);
        let col = random::random_index(rng, 9);
        self.remove_cell(row, col)
    }

    /// Up to `attempts` steps of puzzle making at random cells, stopping once
    /// `target` cells have been emptied. Returns how many are still to empty.
    pub fn remove_cells(&mut self, rng: &mut ThreadRng, target: u8, attempts: u32) -> (left: u8)
        ensures
            left <= target,
            grid::zero_count(final(self).board) == grid::zero_count(old(self).board) + (target
                - left),
            final(self).solved_board == old(self).solved_board,
            grid::has_unique_answer(old(self).board, old(self).solved_board)
                ==> grid::has_unique_answer(final(self).board, final(self).solved_board),
            grid::is_solution(old(self).board) && 0 < target && 0 < attempts ==> left < target,
    {
        let mut left = target;
        let mut tries: u32 = 0;
        while left > 0 && tries < attempts
            invariant
                left <= target,
                grid::zero_count(self.board) == grid::zero_count(old(self).board) + (target - left),
                self.solved_board == old(self).solved_board,
                grid::has_unique_answer(old(self).board, old(self).solved_board)
                    ==> grid::has_unique_answer(self.board, self.solved_board),
                tries <= attempts,
                tries == 0 ==> self.board == old(self).board && left == target,
                tries > 0 && grid::is_solution(old(self).board) && 0 < target ==> left < target,
            decreases attempts - tries,
        {
            if self.remove_random_cell(rng) {
                left -= 1;
            }
            tries += 1;
        }
        left
    }

    /// Makes a puzzle on an empty board: a random finished sudoku becomes the
    /// solution, then up to `attempts` random steps empty cells while the
    /// board keeps one completion, until `missing_values` are empty. Returns
    /// how many cells are still to empty (call `remove_cells` for them).
    pub fn generator(&mut self, rng: &mut ThreadRng, missing_values: u8, attempts: u32) -> (left:
        u8)
        ensures
            left <= missing_values,
            grid::is_empty_grid(old(self).board) && grid::is_solution(final(self).solved_board)
                ==> {
                &&& grid::has_unique_answer(final(self).board, final(self).solved_board)
                &&& grid::zero_count(final(self).board) == missing_values - left
                &&& 0 < missing_values && 0 < attempts ==> left < missing_values
            },
    {
        let ghost b0 = self.board;
        let solved = self.generate_solution(rng);
        proof {
            if grid::is_empty_grid(b0) && solved {
                grid::lemma_solution_zero_count(self.board);
            }
        }
        let ghost b1 = self.board;
        let left = self.remove_cells(rng, missing_values, attempts);
        proof {
            if grid::is_empty_grid(b0) && !solved {
                let (first, second, third) = choose|first: Seq<u8>, second: Seq<u8>, third: Seq<u8>|
                    {
                        &&& distinct_digits(first)
                        &&& distinct_digits(second)
                        &&& distinct_digits(third)
                        &&& seeded_and_solved(b0, b1, first, second, third, solved)
                    };
                let g = choose|g: Grid|
                    {
                        &&& #[trigger] seeded_with(b0, g, first, second, third)
                        &&& solved == grid::has_completion(g)
                        &&& solved ==> grid::first_completion(g, b1)
                        &&& !solved ==> b1 == g
                    };
                assert(grid::at(b1, 0, 3) == 0);
                assert(!grid::placed_ok(b1, 0, 3));
            }
        }
        left
    }
}

/// What one step of puzzle making at cell (r, c) does to board `b0`, giving
/// `b1`: when it empties the cell, the cell was filled and the new board has
/// exactly one completion; otherwise the board stays, and emptying the cell
/// would not have left exactly one completion.
pub open spec fn removal_outcome(b0: Grid, b1: Grid, r: int, c: int, removed: bool) -> bool {
    &&& removed ==> {
        &&& grid::at(b0, r, c) != 0
        &&& grid::updated(b0, b1, r, c, 0)
        &&& grid::unique_completion(b1)
    }
    &&& !removed ==> {
        &&& b1 == b0
        &&& grid::at(b0, r, c) != 0 ==> forall|g: Grid|
            grid::updated(b0, g, r, c, 0) ==> !grid::unique_completion(g)
    }
}

/// `g` is `b` with the three diagonal boxes filled row by row from `first`
/// (top-left), `second` (centre) and `third` (bottom-right).
pub open spec fn seeded_with(b: Grid, g: Grid, first: Seq<u8>, second: Seq<u8>, third: Seq<u8>) -> bool {
    forall|x: int, y: int|
        grid::in_grid(x, y) ==> #[trigger] grid::at(g, x, y) == if 0 <= x < 3 && 0 <= y < 3 {
            first[3 * x + y]
        } else if 3 <= x < 6 && 3 <= y < 6 {
            second[3 * (x - 3) + (y - 3)]
        } else if 6 <= x < 9 && 6 <= y < 9 {
            third[3 * (x - 6) + (y - 6)]
        } else {
            grid::at(b, x, y)
        }
}

/// Seeding `b` with the three orders and solving gives board `s`: the first
/// completion of the seeded grid when `solved`, the seeded grid itself when not.
pub open spec fn seeded_and_solved(
    b: Grid,
    s: Grid,
    first: Seq<u8>,
    second: Seq<u8>,
    third: Seq<u8>,
    solved: bool,
) -> bool {
    exists|g: Grid|
        {
            &&& #[trigger] seeded_with(b, g, first, second, third)
            &&& solved == grid::has_completion(g)
            &&& solved ==> grid::first_completion(g, s)
            &&& !solved ==> s == g
        }
}

/// Nine pairwise distinct digits 1..9.
pub open spec fn distinct_digits(s: Seq<u8>) -> bool {
    &&& s.len() == 9
    &&& forall|i: int| 0 <= i < 9 ==> 1 <= #[trigger] s[i] <= 9
    &&& forall|i: int, j: int| 0 <= i < 9 && 0 <= j < 9 && i != j ==> #[trigger] s[i] != #[trigger] s[j]
}

proof fn lemma_permutation_keeps_digits(new: Seq<u8>, old: Seq<u8>)
    requires
        random::is_permutation_of(new, old),
        distinct_digits(old),
    ensures
        distinct_digits(new),
{
    let p = choose|p: Seq<int>|
        {
            &&& p.len() == old.len()
            &&& forall|i: int| 0 <= i < p.len() ==> 0 <= #[trigger] p[i] < old.len()
            &&& forall|i: int| 0 <= i < p.len() ==> new[i] == old[#[trigger] p[i]]
            &&& forall|i: int, j: int|
                0 <= i < p.len() && 0 <= j < p.len() && i != j ==> #[trigger] p[i] != #[trigger] p[j]
        };
    assert forall|i: int| 0 <= i < 9 implies 1 <= #[trigger] new[i] <= 9 by {
        assert(new[i] == old[p[i]]);
    }
    assert forall|i: int, j: int| 0 <= i < 9 && 0 <= j < 9 && i != j implies #[trigger] new[i]
        != #[trigger] new[j] by {
        assert(new[i] == old[p[i]]);
        assert(new[j] == old[p[j]]);
        assert(p[i] != p[j]);
    }
}

/// Seeding with three orders of distinct digits fills each diagonal box
/// with distinct digits 1..9.
pub proof fn lemma_seeded_boxes(b0: Grid, g: Grid, n0: Seq<u8>, n3: Seq<u8>, n6: Seq<u8>)
    requires
        distinct_digits(n0),
        distinct_digits(n3),
        distinct_digits(n6),
        seeded_with(b0, g, n0, n3, n6),
    ensures
        grid::diagonal_seeded(b0, g),
{
    assert forall|r: int, c: int|
        grid::in_grid(r, c) && grid::on_diagonal_box(r, c) implies 1 <= #[trigger] grid::at(
        g,
        r,
        c,
    ) <= 9 by {
        if r < 3 {
            assert(1 <= n0[3 * r + c] <= 9);
        } else if r < 6 {
            assert(1 <= n3[3 * (r - 3) + (c - 3)] <= 9);
        } else {
            assert(1 <= n6[3 * (r - 6) + (c - 6)] <= 9);
        }
    }
    assert forall|r: int, c: int, i: int, j: int|
        grid::in_grid(r, c) && grid::in_grid(i, j) && grid::on_diagonal_box(r, c)
            && grid::same_box(r, c, i, j) && (r != i || c != j) implies #[trigger] grid::at(
        g,
        r,
        c,
    ) != #[trigger] grid::at(g, i, j) by {
        if r < 3 {
            assert(n0[3 * r + c] != n0[3 * i + j]);
        } else if r < 6 {
            assert(n3[3 * (r - 3) + (c - 3)] != n3[3 * (i - 3) + (j - 3)]);
        } else {
            assert(n6[3 * (r - 6) + (c - 6)] != n6[3 * (i - 6) + (j - 6)]);
        }
    }
}

} // verus!
