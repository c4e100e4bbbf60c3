//! The board as plain text, the way `print` shows it on a terminal.

use vstd::prelude::*;
use crate::grid::{self, Grid};
use crate::sudoku::Sudoku;

verus! {

pub const PLUS: u8 = 43;
pub const DASH: u8 = 45;
pub const BAR: u8 = 124;
pub const SPACE: u8 = 32;
pub const DOT: u8 = 46;
pub const NEWLINE: u8 = 10;
/// The character code of the digit 0.
pub const ZERO: u8 = 48;

pub open spec fn dash_run() -> Seq<u8> {
    Seq::new(7, |i: int| DASH)
}

/// "+-------+-------+-------+" and a newline.
pub open spec fn border_text() -> Seq<u8> {
    seq![PLUS] + dash_run() + seq![PLUS] + dash_run() + seq![PLUS] + dash_run() + seq![PLUS, NEWLINE]
}

/// The decimal digits of `v`.
pub open spec fn decimal(v: u8) -> Seq<u8> {
    if v < 10 {
        seq![(ZERO + v) as u8]
    } else if v < 100 {
        seq![(ZERO + v / 10) as u8, (ZERO + v % 10) as u8]
    } else {
        seq![(ZERO + v / 100) as u8, (ZERO + (v / 10) % 10) as u8, (ZERO + v % 10) as u8]
    }
}

/// A cell and the space after it; an empty cell shows as a dot.
pub open spec fn cell_text(v: u8) -> Seq<u8> {
    if v == 0 {
        seq![DOT, SPACE]
    } else {
        decimal(v) + seq![SPACE]
    }
}

/// The first `n` cells of row `r`, with a bar after every third.
pub open spec fn row_cells_text(b: Grid, r: int, n: int) -> Seq<u8>
    decreases n,
{
    if n <= 0 {
        seq![]
    } else {
        row_cells_text(b, r, n - 1) + cell_text(grid::at(b, r, n - 1)) + if n % 3 == 0 {
            seq![BAR, SPACE]
        } else {
            seq![]
        }
    }
}

pub open spec fn row_text(b: Grid, r: int) -> Seq<u8> {
    seq![BAR, SPACE] + row_cells_text(b, r, 9) + seq![NEWLINE]
}

/// The first `m` rows, with a border after every third.
pub open spec fn rows_text(b: Grid, m: int) -> Seq<u8>
    decreases m,
{
    if m <= 0 {
        seq![]
    } else {
        rows_text(b, m - 1) + row_text(b, m - 1) + if m % 3 == 0 {
            border_text()
        } else {
            seq![]
        }
    }
}

/// The whole board: a border line, then the nine rows.
pub open spec fn board_text(b: Grid) -> Seq<u8> {
    border_text() + rows_text(b, 9)
}

fn push_border(out: &mut Vec<u8>)
    ensures
        final(out)@ == old(out)@ + border_text(),
{
    let ghost start = out@;
    let mut block: usize = 0;
    while block < 3
        invariant
            block <= 3,
            out@ == start + if block == 0 {
                seq![]
            } else if block == 1 {
                seq![PLUS] + dash_run()
            } else if block == 2 {
                seq![PLUS] + dash_run() + seq![PLUS] + dash_run()
            } else {
                seq![PLUS] + dash_run() + seq![PLUS] + dash_run() + seq![PLUS] + dash_run()
            },
        decreases 3 - block,
    {
        let ghost before = out@;
        out.push(PLUS);
        let mut k: usize = 0;
        while k < 7
            invariant
                k <= 7,
                out@ == before + seq![PLUS] + Seq::new(k as nat, |i: int| DASH),
            decreases 7 - k,
        {
            out.push(DASH);
            k += 1;
            assert(out@ =~= before + seq![PLUS] + Seq::new(k as nat, |i: int| DASH));
        }
        assert(Seq::new(7 as nat, |i: int| DASH) =~= dash_run());
        block += 1;
        assert(out@ =~= start + if block == 1 {
            seq![PLUS] + dash_run()
        } else if block == 2 {
            seq![PLUS] + dash_run() + seq![PLUS] + dash_run()
        } else {
            seq![PLUS] + dash_run() + seq![PLUS] + dash_run() + seq![PLUS] + dash_run()
        });
    }
    out.push(PLUS);
    out.push(NEWLINE);
    assert(out@ =~= start + border_text());
}

fn push_cell(out: &mut Vec<u8>, v: u8)
    ensures
        final(out)@ == old(out)@ + cell_text(v),
{
    let ghost start = out@;
    if v == 0 {
        out.push(DOT);
    } else if v < 10 {
        out.push(ZERO + v);
    } else if v < 100 {
        out.push(ZERO + v / 10);
        out.push(ZERO + v % 10);
    } else {
        out.push(ZERO + v / 100);
        out.push(ZERO + (v / 10) % 10);
        out.push(ZERO + v % 10);
    }
    out.push(SPACE);
    assert(out@ =~= start + cell_text(v));
}

impl Sudoku {
    /// The text that `print` writes: the board in rows, 3x3 boxes framed,
    /// empty cells as dots.
    pub fn print_text(&self) -> (text: Vec<u8>)
        ensures
            text@ == board_text(self.board),
    {
        let mut out: Vec<u8> = Vec::new();
        push_border(&mut out);
        let mut row: usize = 0;
        while row < 9
            invariant
                row <= 9,
                out@ == border_text() + rows_text(self.board, row as int),
            decreases 9 - row,
        {
            let ghost line_start = out@;
            out.push(BAR);
            out.push(SPACE);
            let mut col: usize = 0;
            while col < 9
                invariant
                    row < 9,
                    col <= 9,
                    out@ == line_start + seq![BAR, SPACE] + row_cells_text(
                        self.board,
                        row as int,
                        col as int,
                    ),
                decreases 9 - col,
            {
                let ghost before = out@;
                let v = self.board[row][col];
                assert(v == grid::at(self.board, row as int, col as int));
                push_cell(&mut out, v);
                if (col + 1) % 3 == 0 {
                    out.push(BAR);
                    out.push(SPACE);
                }
                col += 1;
                assert(out@ =~= line_start + seq![BAR, SPACE] + row_cells_text(
                    self.board,
                    row as int,
                    col as int,
                ));
            }
            out.push(NEWLINE);
            assert(out@ =~= line_start + row_text(self.board, row as int));
            if (row + 1) % 3 == 0 {
                push_border(&mut out);
            }
            row += 1;
            assert(out@ =~= border_text() + rows_text(self.board, row as int));
        }
        out
    }
}

} // verus!
