//! The board and its geometry: bounds, collision, stamping a piece and
//! clearing full lines.

use crate::game::cleared;
use crate::game::TetrisGame;
use crate::piece::lemma_bounds_cover;
use crate::piece::Tetromino;
use crate::shape::has_cell;
use crate::shape::Shape;
use vstd::prelude::*;

verus! {

pub const BOARD_WIDTH: usize = 10;

pub const BOARD_HEIGHT: usize = 20;

pub type Row = [bool; BOARD_WIDTH];

pub type Board = [[bool; BOARD_WIDTH]; BOARD_HEIGHT];

/// A board as a mathematical value: its rows from top to bottom, each a
/// sequence of cells from left to right.
pub type Grid = Seq<Seq<bool>>;

pub open spec fn grid_of(board: Board) -> Grid {
    Seq::new(BOARD_HEIGHT as nat, |r: int| board[r]@)
}

pub open spec fn blank_row() -> Seq<bool> {
    Seq::new(BOARD_WIDTH as nat, |c: int| false)
}

pub open spec fn blank_grid() -> Grid {
    Seq::new(BOARD_HEIGHT as nat, |r: int| blank_row())
}

pub open spec fn out_of_bounds(col: int, row: int) -> bool {
    col < 0 || col >= BOARD_WIDTH || row < 0 || row >= BOARD_HEIGHT
}

/// A piece cannot take the cell: it lies off the board or is occupied.
pub open spec fn blocked(g: Grid, col: int, row: int) -> bool {
    out_of_bounds(col, row) || g[row][col]
}

/// The matrix `m`, its window anchored at column `x` and row `y`, has an
/// occupied cell on a blocked cell of the board.
pub open spec fn hits(g: Grid, m: Shape, x: int, y: int) -> bool {
    exists|r: int, c: int| 0 <= r < 4 && 0 <= c < 4 && #[trigger] m[r][c] && blocked(g, x + c, y + r)
}

pub open spec fn collides(g: Grid, piece: Tetromino) -> bool {
    hits(g, piece.shape(), piece.x as int, piece.y as int)
}

/// The matrix `m`, anchored at (`x`, `y`), has an occupied cell on the board
/// cell (`col`, `row`).
pub open spec fn covers(m: Shape, x: int, y: int, col: int, row: int) -> bool {
    0 <= row - y < 4 && 0 <= col - x < 4 && m[row - y][col - x]
}

/// The board with the cells that the matrix covers occupied as well.
pub open spec fn stamped(g: Grid, m: Shape, x: int, y: int) -> Grid {
    Seq::new(
        BOARD_HEIGHT as nat,
        |row: int| Seq::new(BOARD_WIDTH as nat, |col: int| g[row][col] || covers(m, x, y, col, row)),
    )
}

pub open spec fn row_full(row: Seq<bool>) -> bool {
    forall|c: int| 0 <= c < BOARD_WIDTH ==> row[c]
}

/// The rows that are not full, in the order in which they stand.
pub open spec fn kept_rows(g: Grid) -> Grid
    decreases g.len(),
{
    if g.len() == 0 {
        g
    } else if row_full(g[0]) {
        kept_rows(g.drop_first())
    } else {
        seq![g[0]] + kept_rows(g.drop_first())
    }
}

/// The number of full rows.
pub open spec fn full_rows(g: Grid) -> nat {
    (g.len() - kept_rows(g).len()) as nat
}

/// The board after line clearing: one blank row at the top for each full
/// row, and below them the rows that are not full, in their order.
pub open spec fn compacted(g: Grid) -> Grid {
    Seq::new(full_rows(g), |r: int| blank_row()) + kept_rows(g)
}

/// Points paid for clearing `lines` rows at once.
pub open spec fn line_score(lines: nat) -> nat {
    if lines == 0 {
        0
    } else if lines == 1 {
        100
    } else if lines == 2 {
        300
    } else if lines == 3 {
        500
    } else {
        800
    }
}

/// A grid of the board's size: twenty rows of ten cells.
pub open spec fn is_grid(g: Grid) -> bool {
    &&& g.len() == BOARD_HEIGHT
    &&& forall|r: int| 0 <= r < BOARD_HEIGHT ==> (#[trigger] g[r]).len() == BOARD_WIDTH
}

/// A matrix with an occupied cell, anchored so far out that its whole window
/// is off the board, hits.
pub proof fn lemma_off_board_hits(g: Grid, m: Shape, x: int, y: int)
    requires
        has_cell(m),
        x < -3 || x >= BOARD_WIDTH || y < -3 || y >= BOARD_HEIGHT,
    ensures
        hits(g, m, x, y),
{
    let (r, c) = choose|r: int, c: int| 0 <= r < 4 && 0 <= c < 4 && #[trigger] m[r][c];
    assert(blocked(g, x + c, y + r));
}

/// No more rows are kept than there are.
pub proof fn lemma_kept_rows_len(g: Grid)
    ensures
        kept_rows(g).len() <= g.len(),
    decreases g.len(),
{
    if g.len() > 0 {
        lemma_kept_rows_len(g.drop_first());
    }
}

/// The piece cells that the stamping scan has passed when it stands at row
/// `i` and column `j` of the window.
spec fn stamped_so_far(m: Shape, x: int, y: int, i: int, j: int, col: int, row: int) -> bool {
    covers(m, x, y, col, row) && (row - y < i || (row - y == i && col - x < j))
}

/// Occupies on `board` every cell of the board that `piece` covers.
pub fn stamp(board: &mut Board, piece: &Tetromino)
    ensures
        grid_of(*final(board)) == stamped(
            grid_of(*old(board)),
            piece.shape(),
            piece.x as int,
            piece.y as int,
        ),
{
    let shape = piece.get_shape();
    let (min_x, min_y, max_x, max_y) = piece.get_bounds(&shape);
    let ghost x = piece.x as int;
    let ghost y = piece.y as int;
    let mut i: i32 = min_y;
    while i <= max_y
        invariant
            0 <= min_y,
            max_y < 4,
            0 <= min_x <= 4,
            max_x < 4,
            min_y <= i,
            i <= 4,
            shape == piece.shape(),
            x == piece.x,
            y == piece.y,
            min_x == crate::piece::first_column(shape),
            max_x == crate::piece::last_column(shape),
            min_y == crate::piece::first_row(shape),
            max_y == crate::piece::last_row(shape),
            forall|row: int, col: int|
                0 <= row < BOARD_HEIGHT && 0 <= col < BOARD_WIDTH ==> (#[trigger] board[row][col]
                    <==> old(board)[row][col] || stamped_so_far(shape, x, y, i as int, 0, col, row)),
        decreases 4 - i,
    {
        let mut j: i32 = min_x;
        while j <= max_x
            invariant
                0 <= min_y <= i <= max_y < 4,
                0 <= min_x <= 4,
                max_x < 4,
                min_x <= j,
                j <= 4,
                shape == piece.shape(),
                x == piece.x,
                y == piece.y,
                min_x == crate::piece::first_column(shape),
                max_x == crate::piece::last_column(shape),
                forall|row: int, col: int|
                    0 <= row < BOARD_HEIGHT && 0 <= col < BOARD_WIDTH ==> (
                    #[trigger] board[row][col] <==> old(board)[row][col] || stamped_so_far(
                        shape,
                        x,
                        y,
                        i as int,
                        j as int,
                        col,
                        row,
                    )),
            decreases 4 - j,
        {
            if shape[i as usize][j as usize] {
                let cell_x = piece.x.checked_add(j);
                let cell_y = piece.y.checked_add(i);
                if cell_x.is_some() && cell_y.is_some() {
                    let board_x = cell_x.unwrap();
                    let board_y = cell_y.unwrap();
                    if !TetrisGame::is_out_of_bounds(board_x, board_y) {
                        board[board_y as usize][board_x as usize] = true;
                    }
                }
            }
            j += 1;
        }
        proof {
            assert forall|row: int, col: int|
                0 <= row < BOARD_HEIGHT && 0 <= col < BOARD_WIDTH implies (#[trigger] board[row][col]
                <==> old(board)[row][col] || stamped_so_far(shape, x, y, i + 1, 0, col, row)) by {
                if covers(shape, x, y, col, row) {
                    lemma_bounds_cover(shape, row - y, col - x);
                }
            }
        }
        i += 1;
    }
    proof {
        let after = grid_of(*board);
        let want = stamped(grid_of(*old(board)), shape, x, y);
        assert forall|row: int, col: int|
            0 <= row < BOARD_HEIGHT && 0 <= col < BOARD_WIDTH implies after[row][col]
            == want[row][col] by {
            if covers(shape, x, y, col, row) {
                lemma_bounds_cover(shape, row - y, col - x);
            }
            assert(board[row][col] == after[row][col]);
        }
        assert(after =~~= want);
    }
}

impl TetrisGame {
    pub fn is_out_of_bounds(board_x: i32, board_y: i32) -> (out: bool)
        ensures
            out == out_of_bounds(board_x as int, board_y as int),
    {
        board_x < 0 || board_x >= BOARD_WIDTH as i32 || board_y < 0 || board_y >= BOARD_HEIGHT as i32
    }

    /// Whether `piece` has a cell off the board or on an occupied cell.
    pub fn check_collision(&self, piece: &Tetromino) -> (hit: bool)
        ensures
            hit == collides(self@.board, *piece),
    {
        let shape = piece.get_shape();
        let (min_x, min_y, max_x, max_y) = piece.get_bounds(&shape);
        let ghost g = grid_of(self.board);
        let ghost x = piece.x as int;
        let ghost y = piece.y as int;
        let mut i: i32 = min_y;
        while i <= max_y
            invariant
                0 <= min_y,
                max_y < 4,
                0 <= min_x <= 4,
                max_x < 4,
                min_y <= i,
                i <= 4,
                g == grid_of(self.board),
                shape == piece.shape(),
                x == piece.x,
                y == piece.y,
                forall|r: int, c: int|
                    min_y <= r < i && min_x <= c <= max_x && #[trigger] shape[r][c] ==> !blocked(
                        g,
                        x + c,
                        y + r,
                    ),
            decreases 4 - i,
        {
            let mut j: i32 = min_x;
            while j <= max_x
                invariant
                    0 <= min_y <= i <= max_y < 4,
                    0 <= min_x <= 4,
                    max_x < 4,
                    min_x <= j,
                    j <= 4,
                    g == grid_of(self.board),
                    shape == piece.shape(),
                    x == piece.x,
                    y == piece.y,
                    forall|r: int, c: int|
                        min_y <= r < i && min_x <= c <= max_x && #[trigger] shape[r][c]
                            ==> !blocked(g, x + c, y + r),
                    forall|c: int|
                        min_x <= c < j && #[trigger] shape[i as int][c] ==> !blocked(
                            g,
                            x + c,
                            y + i,
                        ),
                decreases 4 - j,
            {
                if shape[i as usize][j as usize] {
                    let cell_x = piece.x.checked_add(j);
                    let cell_y = piece.y.checked_add(i);
                    if cell_x.is_none() || cell_y.is_none() {
                        assert(blocked(g, x + j, y + i));
                        return true;
                    }
                    let board_x = cell_x.unwrap();
                    let board_y = cell_y.unwrap();
                    if Self::is_out_of_bounds(board_x, board_y) {
                        assert(blocked(g, x + j, y + i));
                        return true;
                    }
                    if self.board[board_y as usize][board_x as usize] {
                        assert(g[board_y as int][board_x as int]);
                        assert(blocked(g, x + j, y + i));
                        return true;
                    }
                    assert(!g[board_y as int][board_x as int]);
                }
                j += 1;
            }
            i += 1;
        }
        proof {
            assert forall|r: int, c: int| 0 <= r < 4 && 0 <= c < 4 && #[trigger] shape[r][c] implies !blocked(
                g,
                x + c,
                y + r,
            ) by {
                lemma_bounds_cover(shape, r, c);
            }
        }
        false
    }

    pub fn row_is_full(row: &Row) -> (full: bool)
        ensures
            full == row_full(row@),
    {
        let mut x: usize = 0;
        while x < BOARD_WIDTH
            invariant
                x <= BOARD_WIDTH,
                forall|c: int| 0 <= c < x ==> row@[c],
            decreases BOARD_WIDTH - x,
        {
            if !row[x] {
                return false;
            }
            x += 1;
        }
        true
    }

    /// Removes the full rows, lets the rows above them fall, and pays for
    /// the rows removed. Tells how many rows were removed.
    pub fn clear_lines(&mut self) -> (lines: u32)
        ensures
            final(self)@ == cleared(old(self)@),
            lines == full_rows(old(self)@.board),
            final(self).score >= old(self).score,
    {
        let ghost before = grid_of(self.board);
        let mut lines_cleared: u32 = 0;
        let mut write_idx: usize = BOARD_HEIGHT;
        let mut y: usize = BOARD_HEIGHT;
        while y > 0
            invariant
                y <= write_idx <= BOARD_HEIGHT,
                lines_cleared == write_idx - y,
                before == grid_of(old(self).board),
                self.current_piece == old(self).current_piece,
                self.score == old(self).score,
                self.game_over == old(self).game_over,
                self.next_piece_type == old(self).next_piece_type,
                self.bag == old(self).bag,
                self.bag_idx == old(self).bag_idx,
                self.prng == old(self).prng,
                forall|r: int| 0 <= r < y ==> self.board[r] == old(self).board[r],
                kept_rows(before.subrange(y as int, 20)).len() == BOARD_HEIGHT - write_idx,
                forall|k: int|
                    0 <= k < BOARD_HEIGHT - write_idx ==> (#[trigger] self.board[write_idx + k])@
                        == kept_rows(before.subrange(y as int, 20))[k],
            decreases y,
        {
            y -= 1;
            let line_full = Self::row_is_full(&self.board[y]);
            proof {
                let tail = before.subrange(y as int, 20);
                assert(tail.drop_first() =~= before.subrange(y + 1, 20));
                assert(tail[0] == before[y as int]);
            }
            if line_full {
                lines_cleared += 1;
            } else {
                let ghost prev = self.board;
                write_idx -= 1;
                if write_idx != y {
                    self.board[write_idx] = self.board[y];
                }
                proof {
                    let kept = kept_rows(before.subrange(y as int, 20));
                    let rest = kept_rows(before.subrange(y + 1, 20));
                    assert(kept =~= seq![before[y as int]] + rest);
                    assert forall|k: int| 0 <= k < BOARD_HEIGHT - write_idx implies (
                    #[trigger] self.board[write_idx + k])@ == kept[k] by {
                        if k > 0 {
                            assert(self.board[write_idx + k] == prev[(write_idx + 1) + (k - 1)]);
                            assert(kept[k] == rest[k - 1]);
                        }
                    }
                }
            }
        }
        let ghost filled = write_idx;
        proof {
            assert(before.subrange(0, 20) =~= before);
        }
        while write_idx > 0
            invariant
                write_idx <= filled <= BOARD_HEIGHT,
                self.current_piece == old(self).current_piece,
                self.score == old(self).score,
                self.game_over == old(self).game_over,
                self.next_piece_type == old(self).next_piece_type,
                self.bag == old(self).bag,
                self.bag_idx == old(self).bag_idx,
                self.prng == old(self).prng,
                kept_rows(before).len() == BOARD_HEIGHT - filled,
                forall|k: int|
                    0 <= k < BOARD_HEIGHT - filled ==> (#[trigger] self.board[filled + k])@
                        == kept_rows(before)[k],
                forall|r: int| write_idx <= r < filled ==> (#[trigger] self.board[r])@ =~= blank_row(),
            decreases write_idx,
        {
            write_idx -= 1;
            self.board[write_idx] = [false; BOARD_WIDTH];
        }
        if lines_cleared > 0 {
            let points: u32 = match lines_cleared {
                1 => 100,
                2 => 300,
                3 => 500,
                _ => 800,
            };
            self.score = self.score.saturating_add(points);
        }
        proof {
            let want = cleared(old(self)@);
            assert(full_rows(before) == filled);
            assert forall|r: int| 0 <= r < BOARD_HEIGHT implies grid_of(self.board)[r]
                == want.board[r] by {
                if r >= filled {
                    assert(self.board[filled + (r - filled)]@ == kept_rows(before)[r - filled]);
                }
            }
            assert(self@.board =~= want.board);
            assert(self@ =~= want);
        }
        lines_cleared
    }
}

} // verus!
