//! The mathematical model of a sudoku grid: cells, peers, completions.

use vstd::prelude::*;

verus! {

/// A 9x9 grid of cells; 0 marks an empty cell.
pub type Grid = [[u8; 9]; 9];

/// The value in row `r`, column `c`.
pub open spec fn at(b: Grid, r: int, c: int) -> u8 {
    b[r][c]
}

pub open spec fn in_grid(r: int, c: int) -> bool {
    0 <= r < 9 && 0 <= c < 9
}

/// Two cells share a 3x3 box.
pub open spec fn same_box(r1: int, c1: int, r2: int, c2: int) -> bool {
    r1 / 3 == r2 / 3 && c1 / 3 == c2 / 3
}

/// Two cells share a row, a column or a box (a cell counts as its own unit-mate).
pub open spec fn same_unit(r1: int, c1: int, r2: int, c2: int) -> bool {
    r1 == r2 || c1 == c2 || same_box(r1, c1, r2, c2)
}

/// Two distinct cells that share a row, a column or a box.
pub open spec fn peers(r1: int, c1: int, r2: int, c2: int) -> bool {
    (r1 != r2 || c1 != c2) && same_unit(r1, c1, r2, c2)
}

/// `n` occurs nowhere in the row, the column or the box of cell (r, c).
pub open spec fn fits(b: Grid, r: int, c: int, n: u8) -> bool {
    forall|i: int, j: int| in_grid(i, j) && same_unit(r, c, i, j) ==> #[trigger] at(b, i, j) != n
}

/// The cell (r, c) of `s` holds a digit that no peer of the cell repeats.
pub open spec fn placed_ok(s: Grid, r: int, c: int) -> bool {
    &&& 1 <= at(s, r, c) <= 9
    &&& forall|i: int, j: int|
        in_grid(i, j) && peers(r, c, i, j) ==> #[trigger] at(s, i, j) != at(s, r, c)
}

/// `s` fills every empty cell of `b` with a digit that clashes with no other
/// cell of `s`, and keeps every filled cell of `b`.
pub open spec fn is_completion(b: Grid, s: Grid) -> bool {
    forall|r: int, c: int|
        in_grid(r, c) ==> {
            &&& at(b, r, c) != 0 ==> #[trigger] at(s, r, c) == at(b, r, c)
            &&& at(b, r, c) == 0 ==> placed_ok(s, r, c)
        }
}

/// The two grids hold the same value in every cell.
pub open spec fn same_grid(s: Grid, t: Grid) -> bool {
    forall|r: int, c: int| in_grid(r, c) ==> #[trigger] at(s, r, c) == at(t, r, c)
}

/// `b2` is `b1` with cell (r, c) set to `v`.
pub open spec fn updated(b1: Grid, b2: Grid, r: int, c: int, v: u8) -> bool {
    &&& at(b2, r, c) == v
    &&& forall|i: int, j: int|
        in_grid(i, j) && (i != r || j != c) ==> #[trigger] at(b2, i, j) == at(b1, i, j)
}

pub open spec fn has_completion(b: Grid) -> bool {
    exists|s: Grid| is_completion(b, s)
}

#[verifier::opaque]
pub open spec fn no_completion(b: Grid) -> bool {
    forall|s: Grid| !is_completion(b, s)
}

#[verifier::opaque]
pub open spec fn unique_completion(b: Grid) -> bool {
    exists|s: Grid|
        is_completion(b, s) && forall|t: Grid| is_completion(b, t) ==> same_grid(s, t)
}

#[verifier::opaque]
pub open spec fn two_completions(b: Grid) -> bool {
    exists|s: Grid, t: Grid| is_completion(b, s) && is_completion(b, t) && !same_grid(s, t)
}

/// Every cell holds a value from 0 to 9 and no two filled peers hold the same digit.
pub open spec fn consistent(b: Grid) -> bool {
    forall|r: int, c: int|
        in_grid(r, c) ==> {
            &&& #[trigger] at(b, r, c) <= 9
            &&& at(b, r, c) != 0 ==> forall|i: int, j: int|
                in_grid(i, j) && peers(r, c, i, j) ==> #[trigger] at(b, i, j) != at(b, r, c)
        }
}

/// A finished sudoku: every cell holds a digit 1..9 and no peers repeat one.
pub open spec fn is_solution(b: Grid) -> bool {
    forall|r: int, c: int| in_grid(r, c) ==> #[trigger] placed_ok(b, r, c)
}

/// Number of empty cells in row `r` among its first `n` columns.
pub open spec fn zeros_in_row(b: Grid, r: int, n: int) -> nat
    decreases n,
{
    if n <= 0 {
        0
    } else {
        zeros_in_row(b, r, n - 1) + if at(b, r, n - 1) == 0 { 1nat } else { 0nat }
    }
}

/// Number of empty cells among the first `m` rows.
pub open spec fn zeros_in_rows(b: Grid, m: int) -> nat
    decreases m,
{
    if m <= 0 {
        0
    } else {
        zeros_in_rows(b, m - 1) + zeros_in_row(b, m - 1, 9)
    }
}

/// Number of empty cells of the grid.
pub open spec fn zero_count(b: Grid) -> nat {
    zeros_in_rows(b, 9)
}

/// Grids that agree in every cell are equal.
pub proof fn lemma_same_grid_eq(s: Grid, t: Grid)
    requires
        same_grid(s, t),
    ensures
        s == t,
{
    assert forall|r: int| 0 <= r < 9 implies s[r] == t[r] by {
        assert forall|c: int| 0 <= c < 9 implies s[r][c] == t[r][c] by {
            assert(at(s, r, c) == at(t, r, c));
        }
        assert(s[r] =~= t[r]);
    }
    assert(s =~= t);
}

proof fn lemma_zeros_in_row_update(b1: Grid, b2: Grid, r: int, c: int, v: u8, row: int, n: int)
    requires
        updated(b1, b2, r, c, v),
        in_grid(r, c),
        at(b1, r, c) == 0,
        v != 0,
        0 <= row < 9,
        0 <= n <= 9,
    ensures
        zeros_in_row(b2, row, n) + (if row == r && c < n { 1nat } else { 0nat }) == zeros_in_row(
            b1,
            row,
            n,
        ),
    decreases n,
{
    if n > 0 {
        lemma_zeros_in_row_update(b1, b2, r, c, v, row, n - 1);
        if row != r || n - 1 != c {
            assert(at(b2, row, n - 1) == at(b1, row, n - 1));
        }
    }
}

proof fn lemma_zeros_in_rows_update(b1: Grid, b2: Grid, r: int, c: int, v: u8, m: int)
    requires
        updated(b1, b2, r, c, v),
        in_grid(r, c),
        at(b1, r, c) == 0,
        v != 0,
        0 <= m <= 9,
    ensures
        zeros_in_rows(b2, m) + (if r < m { 1nat } else { 0nat }) == zeros_in_rows(b1, m),
    decreases m,
{
    if m > 0 {
        lemma_zeros_in_rows_update(b1, b2, r, c, v, m - 1);
        lemma_zeros_in_row_update(b1, b2, r, c, v, m - 1, 9);
    }
}

/// Filling an empty cell leaves one empty cell fewer.
pub proof fn lemma_zero_count_fill(b1: Grid, b2: Grid, r: int, c: int, v: u8)
    requires
        updated(b1, b2, r, c, v),
        in_grid(r, c),
        at(b1, r, c) == 0,
        v != 0,
    ensures
        zero_count(b2) + 1 == zero_count(b1),
{
    lemma_zeros_in_rows_update(b1, b2, r, c, v, 9);
}

proof fn lemma_zeros_in_row_bound(b: Grid, row: int, n: int)
    requires
        0 <= n,
    ensures
        zeros_in_row(b, row, n) <= n,
    decreases n,
{
    if n > 0 {
        lemma_zeros_in_row_bound(b, row, n - 1);
    }
}

proof fn lemma_zeros_in_rows_bound(b: Grid, m: int)
    requires
        0 <= m,
    ensures
        zeros_in_rows(b, m) <= 9 * m,
    decreases m,
{
    if m > 0 {
        lemma_zeros_in_rows_bound(b, m - 1);
        lemma_zeros_in_row_bound(b, m - 1, 9);
    }
}

/// A grid has at most 81 empty cells.
pub proof fn lemma_zero_count_bound(b: Grid)
    ensures
        zero_count(b) <= 81,
{
    lemma_zeros_in_rows_bound(b, 9);
}

/// The digit that a completion puts in an empty cell fits there.
pub proof fn lemma_completion_fits(b: Grid, s: Grid, r: int, c: int)
    requires
        is_completion(b, s),
        in_grid(r, c),
        at(b, r, c) == 0,
    ensures
        1 <= at(s, r, c) <= 9,
        fits(b, r, c, at(s, r, c)),
{
    assert(placed_ok(s, r, c));
    assert forall|i: int, j: int| in_grid(i, j) && same_unit(r, c, i, j) implies #[trigger] at(
        b,
        i,
        j,
    ) != at(s, r, c) by {
        if i != r || j != c {
            assert(peers(r, c, i, j));
            if at(b, i, j) != 0 {
                assert(at(s, i, j) == at(b, i, j));
            }
        }
    }
}

/// The completions of a grid with an empty cell filled by a fitting digit are
/// exactly the completions of the grid that put that digit there.
pub proof fn lemma_completion_step(b1: Grid, b2: Grid, r: int, c: int, v: u8, s: Grid)
    requires
        updated(b1, b2, r, c, v),
        in_grid(r, c),
        at(b1, r, c) == 0,
        1 <= v <= 9,
        fits(b1, r, c, v),
    ensures
        is_completion(b2, s) <==> (is_completion(b1, s) && at(s, r, c) == v),
{
    if is_completion(b1, s) && at(s, r, c) == v {
        assert forall|i: int, j: int| in_grid(i, j) implies {
            &&& at(b2, i, j) != 0 ==> #[trigger] at(s, i, j) == at(b2, i, j)
            &&& at(b2, i, j) == 0 ==> placed_ok(s, i, j)
        } by {
            if i != r || j != c {
                assert(at(b2, i, j) == at(b1, i, j));
            }
        }
    }
    if is_completion(b2, s) {
        assert(at(s, r, c) == v);
        assert forall|i: int, j: int| in_grid(i, j) implies {
            &&& at(b1, i, j) != 0 ==> #[trigger] at(s, i, j) == at(b1, i, j)
            &&& at(b1, i, j) == 0 ==> placed_ok(s, i, j)
        } by {
            if i == r && j == c {
                assert forall|x: int, y: int| in_grid(x, y) && peers(r, c, x, y) implies #[trigger] at(
                    s,
                    x,
                    y,
                ) != at(s, r, c) by {
                    assert(at(b2, x, y) == at(b1, x, y));
                    assert(same_unit(r, c, x, y));
                    if at(b1, x, y) != 0 {
                        assert(at(s, x, y) == at(b2, x, y));
                    } else {
                        assert(placed_ok(s, x, y));
                        assert(peers(x, y, r, c));
                    }
                }
                assert(placed_ok(s, r, c));
            } else {
                assert(at(b2, i, j) == at(b1, i, j));
            }
        }
    }
}

/// With no empty cell, a grid is its own completion.
pub proof fn lemma_full_is_own_completion(b: Grid)
    requires
        forall|r: int, c: int| in_grid(r, c) ==> #[trigger] at(b, r, c) != 0,
    ensures
        is_completion(b, b),
{
}

/// No grid has two of the three kinds of completion sets at once.
pub proof fn lemma_completion_cases(b: Grid)
    ensures
        no_completion(b) ==> !unique_completion(b) && !two_completions(b),
        unique_completion(b) ==> !two_completions(b),
        !no_completion(b) && !two_completions(b) ==> unique_completion(b),
{
    reveal(no_completion);
    reveal(unique_completion);
    reveal(two_completions);
    if unique_completion(b) && two_completions(b) {
        let s0 = choose|s: Grid|
            is_completion(b, s) && forall|t: Grid| is_completion(b, t) ==> same_grid(s, t);
        let (s, t) = choose|s: Grid, t: Grid|
            is_completion(b, s) && is_completion(b, t) && !same_grid(s, t);
        assert(same_grid(s0, s));
        assert(same_grid(s0, t));
        assert forall|r: int, c: int| in_grid(r, c) implies #[trigger] at(s, r, c) == at(t, r, c) by {
            assert(at(s0, r, c) == at(s, r, c));
            assert(at(s0, r, c) == at(t, r, c));
        }
    }
    if !no_completion(b) && !two_completions(b) {
        let s0 = choose|s: Grid| is_completion(b, s);
        assert forall|t: Grid| is_completion(b, t) implies same_grid(s0, t) by {
            if !same_grid(s0, t) {
                assert(two_completions(b));
            }
        }
    }
}

/// What the solution counter knows after trying the digits below `i` in the
/// empty cell (r, c): `n` completions found, and when `n` is 1, that one
/// completion is the only one with a digit below `i` there.
pub open spec fn count_progress(b: Grid, r: int, c: int, i: int, n: int) -> bool {
    &&& n == 0 ==> forall|s: Grid| is_completion(b, s) ==> at(s, r, c) >= i
    &&& n == 1 ==> exists|s0: Grid|
        is_completion(b, s0) && at(s0, r, c) < i && forall|t: Grid|
            is_completion(b, t) && at(t, r, c) < i ==> same_grid(s0, t)
}

/// The classification that the solution counter reports of a grid.
pub open spec fn counted(b: Grid, n: int) -> bool {
    &&& (n == 0) == no_completion(b)
    &&& (n == 1) == unique_completion(b)
    &&& (n >= 2) == two_completions(b)
}

/// A digit that does not fit adds no completion.
pub proof fn lemma_count_skip(b: Grid, r: int, c: int, v: u8, n: int)
    requires
        in_grid(r, c),
        at(b, r, c) == 0,
        !fits(b, r, c, v),
        count_progress(b, r, c, v as int, n),
    ensures
        count_progress(b, r, c, v + 1, n),
{
    assert forall|s: Grid| is_completion(b, s) implies at(s, r, c) != v by {
        lemma_completion_fits(b, s, r, c);
    }
    if n == 1 {
        let s0 = choose|s0: Grid|
            is_completion(b, s0) && at(s0, r, c) < v && forall|t: Grid|
                is_completion(b, t) && at(t, r, c) < v ==> same_grid(s0, t);
        assert(is_completion(b, s0) && at(s0, r, c) < v + 1);
    }
}

/// Trying a fitting digit whose filled grid the counter classified as `sub`.
pub proof fn lemma_count_step(b0: Grid, b1: Grid, r: int, c: int, v: u8, n: int, sub: int)
    requires
        updated(b0, b1, r, c, v),
        in_grid(r, c),
        at(b0, r, c) == 0,
        1 <= v <= 9,
        fits(b0, r, c, v),
        0 <= n <= 1,
        0 <= sub,
        count_progress(b0, r, c, v as int, n),
        counted(b1, sub),
    ensures
        n + sub >= 2 ==> two_completions(b0),
        n + sub <= 1 ==> count_progress(b0, r, c, v + 1, n + sub),
{
    reveal(no_completion);
    reveal(unique_completion);
    reveal(two_completions);
    lemma_completion_cases(b1);
    if sub == 0 {
        assert forall|s: Grid| is_completion(b0, s) implies at(s, r, c) != v by {
            lemma_completion_step(b0, b1, r, c, v, s);
        }
        if n == 1 {
            let s0 = choose|s0: Grid|
                is_completion(b0, s0) && at(s0, r, c) < v && forall|t: Grid|
                    is_completion(b0, t) && at(t, r, c) < v ==> same_grid(s0, t);
            assert(is_completion(b0, s0) && at(s0, r, c) < v + 1);
        }
    } else if sub == 1 {
        let u = choose|s: Grid|
            is_completion(b1, s) && forall|t: Grid| is_completion(b1, t) ==> same_grid(s, t);
        lemma_completion_step(b0, b1, r, c, v, u);
        if n == 0 {
            assert forall|t: Grid| is_completion(b0, t) && at(t, r, c) < v + 1 implies same_grid(
                u,
                t,
            ) by {
                lemma_completion_step(b0, b1, r, c, v, t);
            }
            assert(is_completion(b0, u) && at(u, r, c) < v + 1);
        } else {
            let s0 = choose|s0: Grid|
                is_completion(b0, s0) && at(s0, r, c) < v && forall|t: Grid|
                    is_completion(b0, t) && at(t, r, c) < v ==> same_grid(s0, t);
            assert(at(s0, r, c) != at(u, r, c));
            assert(!same_grid(s0, u));
        }
    } else {
        let (s, t) = choose|s: Grid, t: Grid|
            is_completion(b1, s) && is_completion(b1, t) && !same_grid(s, t);
        lemma_completion_step(b0, b1, r, c, v, s);
        lemma_completion_step(b0, b1, r, c, v, t);
    }
}

/// After every digit has been tried, the count classifies the grid.
pub proof fn lemma_count_done(b: Grid, r: int, c: int, n: int)
    requires
        in_grid(r, c),
        at(b, r, c) == 0,
        0 <= n <= 1,
        count_progress(b, r, c, 10, n),
    ensures
        counted(b, n),
{
    reveal(no_completion);
    reveal(unique_completion);
    reveal(two_completions);
    lemma_completion_cases(b);
    assert forall|s: Grid| is_completion(b, s) implies at(s, r, c) < 10 by {
        lemma_completion_fits(b, s, r, c);
    }
    if n == 1 {
        let s0 = choose|s0: Grid|
            is_completion(b, s0) && at(s0, r, c) < 10 && forall|t: Grid|
                is_completion(b, t) && at(t, r, c) < 10 ==> same_grid(s0, t);
        assert(unique_completion(b));
    }
}

/// A grid with no empty cell has exactly one completion: itself.
pub proof fn lemma_full_unique(b: Grid)
    requires
        forall|r: int, c: int| in_grid(r, c) ==> #[trigger] at(b, r, c) != 0,
    ensures
        counted(b, 1),
{
    reveal(no_completion);
    reveal(unique_completion);
    reveal(two_completions);
    lemma_completion_cases(b);
    assert forall|t: Grid| is_completion(b, t) implies same_grid(b, t) by {}
    assert(is_completion(b, b));
}

/// Every cell is empty.
pub open spec fn is_empty_grid(b: Grid) -> bool {
    forall|r: int, c: int| in_grid(r, c) ==> #[trigger] at(b, r, c) == 0
}

/// The cell lies in one of the three boxes on the main diagonal.
pub open spec fn on_diagonal_box(r: int, c: int) -> bool {
    r / 3 == c / 3
}

/// `g` is `b` with each of the three diagonal boxes filled with distinct
/// digits 1..9.
pub open spec fn diagonal_seeded(b: Grid, g: Grid) -> bool {
    &&& forall|r: int, c: int|
        in_grid(r, c) && !on_diagonal_box(r, c) ==> #[trigger] at(g, r, c) == at(b, r, c)
    &&& forall|r: int, c: int| in_grid(r, c) && on_diagonal_box(r, c) ==> 1 <= #[trigger] at(g, r, c) <= 9
    &&& forall|r: int, c: int, i: int, j: int|
        in_grid(r, c) && in_grid(i, j) && on_diagonal_box(r, c) && same_box(r, c, i, j) && (r
            != i || c != j) ==> #[trigger] at(g, r, c) != #[trigger] at(g, i, j)
}

/// Seeding the diagonal boxes of an empty grid gives a consistent grid.
pub proof fn lemma_seeded_consistent(b: Grid, g: Grid)
    requires
        is_empty_grid(b),
        diagonal_seeded(b, g),
    ensures
        consistent(g),
{
    assert forall|r: int, c: int| in_grid(r, c) implies {
        &&& #[trigger] at(g, r, c) <= 9
        &&& at(g, r, c) != 0 ==> forall|i: int, j: int|
            in_grid(i, j) && peers(r, c, i, j) ==> #[trigger] at(g, i, j) != at(g, r, c)
    } by {
        if !on_diagonal_box(r, c) {
            assert(at(g, r, c) == at(b, r, c));
        }
        if at(g, r, c) != 0 {
            assert(on_diagonal_box(r, c));
            assert forall|i: int, j: int| in_grid(i, j) && peers(r, c, i, j) implies #[trigger] at(
                g,
                i,
                j,
            ) != at(g, r, c) by {
                if on_diagonal_box(i, j) {
                    assert(same_box(r, c, i, j));
                } else {
                    assert(at(g, i, j) == at(b, i, j));
                }
            }
        }
    }
}

/// A completion of a consistent grid is a finished sudoku.
pub proof fn lemma_consistent_completion_solution(b: Grid, s: Grid)
    requires
        consistent(b),
        is_completion(b, s),
    ensures
        is_solution(s),
{
    assert forall|r: int, c: int| in_grid(r, c) implies #[trigger] placed_ok(s, r, c) by {
        if at(b, r, c) != 0 {
            assert(at(s, r, c) == at(b, r, c));
            assert forall|i: int, j: int| in_grid(i, j) && peers(r, c, i, j) implies #[trigger] at(
                s,
                i,
                j,
            ) != at(s, r, c) by {
                if at(b, i, j) != 0 {
                    assert(at(s, i, j) == at(b, i, j));
                } else {
                    assert(placed_ok(s, i, j));
                    assert(peers(i, j, r, c));
                }
            }
        }
    }
}

/// Emptying a cell of a grid keeps every finished sudoku that completes it.
pub proof fn lemma_clear_keeps_completion(b1: Grid, b2: Grid, r: int, c: int, s: Grid)
    requires
        is_solution(s),
        is_completion(b1, s),
        updated(b1, b2, r, c, 0),
        in_grid(r, c),
    ensures
        is_completion(b2, s),
{
    assert forall|i: int, j: int| in_grid(i, j) implies {
        &&& at(b2, i, j) != 0 ==> #[trigger] at(s, i, j) == at(b2, i, j)
        &&& at(b2, i, j) == 0 ==> placed_ok(s, i, j)
    } by {
        assert(placed_ok(s, i, j));
        if i != r || j != c {
            assert(at(b2, i, j) == at(b1, i, j));
        }
    }
}

/// A grid that differs from `b` only by holding `v` at (r, c) is unique.
pub proof fn lemma_updated_unique(b: Grid, g1: Grid, g2: Grid, r: int, c: int, v: u8)
    requires
        updated(b, g1, r, c, v),
        updated(b, g2, r, c, v),
    ensures
        g1 == g2,
{
    assert forall|i: int, j: int| in_grid(i, j) implies #[trigger] at(g1, i, j) == at(g2, i, j) by {
        if i != r || j != c {
            assert(at(g1, i, j) == at(b, i, j));
            assert(at(g2, i, j) == at(b, i, j));
        }
    }
    lemma_same_grid_eq(g1, g2);
}

/// Cell (i, j) comes before cell (r, c) in reading order.
pub open spec fn before(i: int, j: int, r: int, c: int) -> bool {
    i < r || (i == r && j < c)
}

/// `s` comes before `t` in reading order: at the first cell where they
/// differ, `s` holds the smaller value.
pub open spec fn reads_before(s: Grid, t: Grid) -> bool {
    exists|r: int, c: int|
        #![trigger at(s, r, c), at(t, r, c)]
        in_grid(r, c) && at(s, r, c) < at(t, r, c) && forall|i: int, j: int|
            in_grid(i, j) && before(i, j, r, c) ==> #[trigger] at(s, i, j) == at(t, i, j)
}

/// `s` is the completion of `b` that comes first in reading order.
pub open spec fn first_completion(b: Grid, s: Grid) -> bool {
    &&& is_completion(b, s)
    &&& forall|t: Grid| is_completion(b, t) ==> same_grid(s, t) || reads_before(s, t)
}

/// Filling the first empty cell with the smallest digit that leads to a
/// completion, then taking the first completion of the result, gives the
/// first completion of the grid.
pub proof fn lemma_first_completion_step(b0: Grid, b1: Grid, r: int, c: int, v: u8, s: Grid)
    requires
        updated(b0, b1, r, c, v),
        in_grid(r, c),
        at(b0, r, c) == 0,
        1 <= v <= 9,
        fits(b0, r, c, v),
        first_completion(b1, s),
        forall|t: Grid| is_completion(b0, t) ==> at(t, r, c) >= v,
        forall|i: int, j: int| in_grid(i, j) && before(i, j, r, c) ==> #[trigger] at(b0, i, j) != 0,
    ensures
        first_completion(b0, s),
{
    lemma_completion_step(b0, b1, r, c, v, s);
    assert forall|t: Grid| is_completion(b0, t) implies same_grid(s, t) || reads_before(s, t) by {
        lemma_completion_step(b0, b1, r, c, v, t);
        if at(t, r, c) != v {
            assert forall|i: int, j: int| in_grid(i, j) && before(i, j, r, c) implies #[trigger] at(
                s,
                i,
                j,
            ) == at(t, i, j) by {
                assert(at(b0, i, j) != 0);
            }
            assert(at(s, r, c) < at(t, r, c));
        }
    }
}

/// With no empty cell, a grid is its own first completion.
pub proof fn lemma_full_first_completion(b: Grid)
    requires
        forall|r: int, c: int| in_grid(r, c) ==> #[trigger] at(b, r, c) != 0,
    ensures
        first_completion(b, b),
{
    assert forall|t: Grid| is_completion(b, t) implies same_grid(b, t) by {}
}

/// `w` lists completions of `b`, no two of them the same grid.
pub open spec fn distinct_completions(b: Grid, w: Seq<Grid>) -> bool {
    &&& forall|k: int| 0 <= k < w.len() ==> is_completion(b, #[trigger] w[k])
    &&& forall|k: int, l: int|
        0 <= k < w.len() && 0 <= l < w.len() && k != l ==> !same_grid(
            #[trigger] w[k],
            #[trigger] w[l],
        )
}

/// The completions found after trying a fitting digit `v` in (r, c), added to
/// those found with smaller digits, are still distinct completions.
pub proof fn lemma_distinct_completions_step(
    b0: Grid,
    b1: Grid,
    r: int,
    c: int,
    v: u8,
    found: Seq<Grid>,
    more: Seq<Grid>,
)
    requires
        updated(b0, b1, r, c, v),
        in_grid(r, c),
        at(b0, r, c) == 0,
        1 <= v <= 9,
        fits(b0, r, c, v),
        distinct_completions(b0, found),
        forall|k: int| 0 <= k < found.len() ==> at(#[trigger] found[k], r, c) < v,
        distinct_completions(b1, more),
    ensures
        distinct_completions(b0, found + more),
        forall|k: int| 0 <= k < (found + more).len() ==> at(#[trigger] (found + more)[k], r, c) < v + 1,
{
    let all = found + more;
    assert forall|k: int| 0 <= k < more.len() implies is_completion(b0, #[trigger] more[k]) && at(
        more[k],
        r,
        c,
    ) == v by {
        lemma_completion_step(b0, b1, r, c, v, more[k]);
    }
    assert forall|k: int| 0 <= k < all.len() implies is_completion(b0, #[trigger] all[k]) && at(
        all[k],
        r,
        c,
    ) < v + 1 by {
        if k >= found.len() {
            assert(all[k] == more[k - found.len()]);
        }
    }
    assert forall|k: int, l: int|
        0 <= k < all.len() && 0 <= l < all.len() && k != l implies !same_grid(
        #[trigger] all[k],
        #[trigger] all[l],
    ) by {
        if k < found.len() && l < found.len() {
        } else if k >= found.len() && l >= found.len() {
            assert(all[k] == more[k - found.len()]);
            assert(all[l] == more[l - found.len()]);
        } else if k < found.len() {
            assert(all[l] == more[l - found.len()]);
            assert(at(all[k], r, c) != at(all[l], r, c));
        } else {
            assert(all[k] == more[k - found.len()]);
            assert(at(all[k], r, c) != at(all[l], r, c));
        }
    }
}

/// A finished sudoku is the only completion of itself.
pub proof fn lemma_solution_unique(s: Grid)
    requires
        is_solution(s),
    ensures
        is_completion(s, s),
        unique_completion(s),
{
    assert forall|r: int, c: int| in_grid(r, c) implies #[trigger] at(s, r, c) != 0 by {
        assert(placed_ok(s, r, c));
    }
    lemma_full_unique(s);
    lemma_full_is_own_completion(s);
    reveal(no_completion);
}

/// `board` is a puzzle whose one completion is `solution`, a finished sudoku.
pub open spec fn has_unique_answer(board: Grid, solution: Grid) -> bool {
    &&& is_solution(solution)
    &&& is_completion(board, solution)
    &&& unique_completion(board)
}

proof fn lemma_zeros_in_row_full(b: Grid, r: int, n: int)
    requires
        0 <= r < 9,
        0 <= n <= 9,
        forall|i: int, j: int| in_grid(i, j) ==> #[trigger] at(b, i, j) != 0,
    ensures
        zeros_in_row(b, r, n) == 0,
    decreases n,
{
    if n > 0 {
        lemma_zeros_in_row_full(b, r, n - 1);
        assert(at(b, r, n - 1) != 0);
    }
}

proof fn lemma_zeros_in_rows_full(b: Grid, m: int)
    requires
        0 <= m <= 9,
        forall|i: int, j: int| in_grid(i, j) ==> #[trigger] at(b, i, j) != 0,
    ensures
        zeros_in_rows(b, m) == 0,
    decreases m,
{
    if m > 0 {
        lemma_zeros_in_rows_full(b, m - 1);
        lemma_zeros_in_row_full(b, m - 1, 9);
    }
}

/// A finished sudoku has no empty cell.
pub proof fn lemma_solution_zero_count(s: Grid)
    requires
        is_solution(s),
    ensures
        zero_count(s) == 0,
{
    assert forall|r: int, c: int| in_grid(r, c) implies #[trigger] at(s, r, c) != 0 by {
        assert(placed_ok(s, r, c));
    }
    lemma_zeros_in_rows_full(s, 9);
}

/// Cell (r, c) is the first empty cell of `b` in reading order.
pub open spec fn first_empty(b: Grid, r: int, c: int) -> bool {
    &&& in_grid(r, c)
    &&& at(b, r, c) == 0
    &&& forall|i: int, j: int| in_grid(i, j) && before(i, j, r, c) ==> #[trigger] at(b, i, j) != 0
}

/// `b` with cell (r, c) set to `v`.
pub open spec fn with_cell(b: Grid, r: int, c: int, v: u8) -> Grid {
    vstd::array::spec_array_update(b, r, vstd::array::spec_array_update(b[r], c, v))
}

pub proof fn lemma_with_cell(b: Grid, r: int, c: int, v: u8)
    requires
        in_grid(r, c),
    ensures
        updated(b, with_cell(b, r, c, v), r, c, v),
{
    let row = vstd::array::spec_array_update(b[r], c, v);
    let g = with_cell(b, r, c, v);
    assert(g@ == b@.update(r, row));
    assert(row@ == b[r]@.update(c, v));
    assert forall|i: int, j: int| in_grid(i, j) && (i != r || j != c) implies #[trigger] at(g, i, j)
        == at(b, i, j) by {
        if i == r {
            assert(g[i] == row);
        }
    }
}

pub proof fn lemma_first_empty_unique(b: Grid, r1: int, c1: int, r2: int, c2: int)
    requires
        first_empty(b, r1, c1),
        first_empty(b, r2, c2),
    ensures
        r1 == r2 && c1 == c2,
{
    if before(r1, c1, r2, c2) {
        assert(at(b, r1, c1) != 0);
    }
    if before(r2, c2, r1, c1) {
        assert(at(b, r2, c2) != 0);
    }
}

/// The number that the solution counter reports for `b`: 1 for a board with
/// no empty cell; otherwise, at its first empty cell, the counts of the
/// boards with each fitting digit 1..9 put there, added up in order until
/// the total passes 1.
pub open spec fn search_count(b: Grid) -> int
    decreases zero_count(b), 10int,
{
    if exists|r: int, c: int| first_empty(b, r, c) {
        let (r, c) = choose|r: int, c: int| first_empty(b, r, c);
        digits_count(b, r, c, 1, 0)
    } else {
        1
    }
}

/// The running total `acc` of the solution counter at empty cell (r, c),
/// continued from digit `v`.
pub open spec fn digits_count(b: Grid, r: int, c: int, v: int, acc: int) -> int
    decreases zero_count(b), 10 - v,
{
    if v > 9 || v < 1 || !in_grid(r, c) || at(b, r, c) != 0 {
        acc
    } else if fits(b, r, c, v as u8) {
        proof {
            lemma_with_cell(b, r, c, v as u8);
            lemma_zero_count_fill(b, with_cell(b, r, c, v as u8), r, c, v as u8);
        }
        let total = acc + search_count(with_cell(b, r, c, v as u8));
        if total > 1 {
            total
        } else {
            digits_count(b, r, c, v + 1, total)
        }
    } else {
        digits_count(b, r, c, v + 1, acc)
    }
}

/// Every row of a finished sudoku holds every digit 1..9.
pub proof fn lemma_row_has_every_digit(s: Grid, r: int, v: int)
    requires
        is_solution(s),
        0 <= r < 9,
        1 <= v <= 9,
    ensures
        exists|j: int| 0 <= j < 9 && #[trigger] at(s, r, j) == v,
{
    let f = |j: int| at(s, r, j) as int;
    let cols = vstd::set_lib::set_int_range(0, 9);
    let digits = vstd::set_lib::set_int_range(1, 10);
    vstd::set_lib::lemma_int_range(0, 9);
    vstd::set_lib::lemma_int_range(1, 10);
    assert forall|j1: int, j2: int| cols.contains(j1) && cols.contains(j2) && #[trigger] f(j1)
        == #[trigger] f(j2) implies j1 == j2 by {
        assert(placed_ok(s, r, j1));
        if j1 != j2 {
            assert(peers(r, j1, r, j2));
        }
    }
    let image = cols.map(f);
    vstd::set_lib::lemma_map_size(cols, image, f);
    assert forall|x: int| image.contains(x) implies digits.contains(x) by {
        let j = choose|j: int| cols.contains(j) && f(j) == x;
        assert(placed_ok(s, r, j));
    }
    vstd::set_lib::lemma_subset_equality(image, digits);
    assert(digits.contains(v));
    assert(image.contains(v));
    let j = choose|j: int| cols.contains(j) && f(j) == v;
    assert(at(s, r, j) == v);
}

/// Emptying one cell of a finished sudoku leaves a board whose one
/// completion is that sudoku.
pub proof fn lemma_one_cell_off_solution(s: Grid, g: Grid, r: int, c: int)
    requires
        is_solution(s),
        updated(s, g, r, c, 0),
        in_grid(r, c),
    ensures
        is_completion(g, s),
        unique_completion(g),
{
    lemma_solution_unique(s);
    lemma_clear_keeps_completion(s, g, r, c, s);
    assert forall|t: Grid| is_completion(g, t) implies same_grid(s, t) by {
        assert forall|i: int, j: int| in_grid(i, j) implies #[trigger] at(s, i, j) == at(t, i, j) by {
            assert(placed_ok(s, i, j));
            if i != r || j != c {
                assert(at(g, i, j) == at(s, i, j));
            } else {
                assert(placed_ok(t, r, c));
                let v = at(t, r, c);
                lemma_row_has_every_digit(s, r, v as int);
                let k = choose|k: int| 0 <= k < 9 && #[trigger] at(s, r, k) == v;
                if k != c {
                    assert(peers(r, c, r, k));
                    assert(at(g, r, k) == at(s, r, k));
                    assert(placed_ok(s, r, k));
                    assert(at(t, r, k) == at(g, r, k));
                }
            }
        }
    }
    reveal(unique_completion);
}

} // verus!
