//! The text renderer: the frame of a game as bytes, written into a buffer
//! of any size and cut off where the buffer ends.

use crate::board::grid_of;
use crate::board::stamp;
use crate::board::stamped;
use crate::board::Board;
use crate::board::Grid;
use crate::board::BOARD_HEIGHT;
use crate::board::BOARD_WIDTH;
use crate::game::GameView;
use crate::game::TetrisGame;
use vstd::prelude::*;

verus! {

/// The byte that fills the part of a buffer that the frame does not reach.
pub const SPACE: u8 = 0x20;

/// Upper left corner of the box.
pub open spec fn top_left() -> Seq<u8> {
    seq![0xE2u8, 0x95u8, 0x94u8]
}

/// One horizontal stroke of the box.
pub open spec fn horizontal() -> Seq<u8> {
    seq![0xE2u8, 0x95u8, 0x90u8]
}

/// Upper right corner of the box, and the end of the line.
pub open spec fn top_right() -> Seq<u8> {
    seq![0xE2u8, 0x95u8, 0x97u8, 0x0Au8]
}

/// Left side of the box.
pub open spec fn left_side() -> Seq<u8> {
    seq![0xE2u8, 0x95u8, 0x91u8]
}

/// Right side of the box, and the end of the line.
pub open spec fn right_side() -> Seq<u8> {
    seq![0xE2u8, 0x95u8, 0x91u8, 0x0Au8]
}

/// Lower left corner of the box.
pub open spec fn bottom_left() -> Seq<u8> {
    seq![0xE2u8, 0x95u8, 0x9Au8]
}

/// Lower right corner of the box, and the end of the line.
pub open spec fn bottom_right() -> Seq<u8> {
    seq![0xE2u8, 0x95u8, 0x9Du8, 0x0Au8]
}

/// An occupied cell: two full blocks.
pub open spec fn filled_cell() -> Seq<u8> {
    seq![0xE2u8, 0x96u8, 0x88u8, 0xE2u8, 0x96u8, 0x88u8]
}

/// A free cell: two spaces.
pub open spec fn empty_cell() -> Seq<u8> {
    seq![0x20u8, 0x20u8]
}

/// The text `Score: `.
pub open spec fn score_label() -> Seq<u8> {
    seq![0x53u8, 0x63u8, 0x6Fu8, 0x72u8, 0x65u8, 0x3Au8, 0x20u8]
}

/// The end of a line.
pub open spec fn line_end() -> Seq<u8> {
    seq![0x0Au8]
}

/// The line `GAME OVER!`.
pub open spec fn game_over_line() -> Seq<u8> {
    seq![0x47u8, 0x41u8, 0x4Du8, 0x45u8, 0x20u8, 0x4Fu8, 0x56u8, 0x45u8, 0x52u8, 0x21u8, 0x0Au8]
}

/// `n` horizontal strokes.
pub open spec fn strokes(n: nat) -> Seq<u8>
    decreases n,
{
    if n == 0 {
        Seq::empty()
    } else {
        strokes((n - 1) as nat) + horizontal()
    }
}

pub open spec fn cell_glyph(cell: bool) -> Seq<u8> {
    if cell {
        filled_cell()
    } else {
        empty_cell()
    }
}

/// The glyphs of the first `n` cells of a row.
pub open spec fn cells(row: Seq<bool>, n: nat) -> Seq<u8>
    decreases n,
{
    if n == 0 {
        Seq::empty()
    } else {
        cells(row, (n - 1) as nat) + cell_glyph(row[n - 1])
    }
}

/// One board row between the sides of the box.
pub open spec fn row_line(row: Seq<bool>) -> Seq<u8> {
    left_side() + cells(row, BOARD_WIDTH as nat) + right_side()
}

/// The lines of the first `n` rows of a board.
pub open spec fn row_lines(g: Grid, n: nat) -> Seq<u8>
    decreases n,
{
    if n == 0 {
        Seq::empty()
    } else {
        row_lines(g, (n - 1) as nat) + row_line(g[n - 1])
    }
}

/// A number in decimal digits, without leading zeros.
pub open spec fn decimal(n: nat) -> Seq<u8>
    decreases n,
{
    if n < 10 {
        seq![(0x30 + n) as u8]
    } else {
        decimal(n / 10).push((0x30 + n % 10) as u8)
    }
}

/// The board as it is shown: with the active piece on it.
pub open spec fn shown_board(g: GameView) -> Grid {
    match g.current_piece {
        Some(p) => stamped(g.board, p.shape(), p.x as int, p.y as int),
        None => g.board,
    }
}

/// The whole frame of a game: the boxed board with the active piece on it,
/// the score line, and the game-over line once the game is over.
pub open spec fn frame(g: GameView) -> Seq<u8> {
    top_left() + strokes(2 * BOARD_WIDTH as nat) + top_right() + row_lines(
        shown_board(g),
        BOARD_HEIGHT as nat,
    ) + bottom_left() + strokes(2 * BOARD_WIDTH as nat) + bottom_right() + score_label() + decimal(
        g.score as nat,
    ) + line_end() + if g.game_over {
        game_over_line()
    } else {
        Seq::empty()
    }
}

/// A buffer of `capacity` bytes that holds `text` from its start, cut off at
/// the buffer's end, and spaces after it.
pub open spec fn rendered(text: Seq<u8>, capacity: nat) -> Seq<u8> {
    Seq::new(
        capacity,
        |i: int|
            if i < text.len() {
                text[i]
            } else {
                SPACE
            },
    )
}

/// How many of `count` bytes fit into a buffer of `capacity` bytes from
/// position `pos` on.
pub open spec fn room_for(capacity: int, pos: int, count: int) -> int {
    if pos >= capacity {
        0
    } else if count <= capacity - pos {
        count
    } else {
        capacity - pos
    }
}

/// `buf` with `bytes` written over it from position `pos` on.
pub open spec fn overwritten(buf: Seq<u8>, pos: int, bytes: Seq<u8>) -> Seq<u8> {
    Seq::new(
        buf.len(),
        |i: int|
            if pos <= i < pos + bytes.len() {
                bytes[i - pos]
            } else {
                buf[i]
            },
    )
}

/// The bytes of `text` that fit are written, and the write position stands
/// behind them.
#[verifier::opaque]
spec fn emitted(buf: Seq<u8>, text: Seq<u8>, pos: int) -> bool {
    buf == rendered(text, buf.len()) && pos == room_for(buf.len() as int, 0, text.len() as int)
}

/// Writing the bytes that fit at the write position extends the text that
/// the buffer holds.
proof fn lemma_emit(buf: Seq<u8>, text: Seq<u8>, pos: int, bytes: Seq<u8>)
    requires
        emitted(buf, text, pos),
    ensures
        emitted(
            overwritten(
                buf,
                pos,
                bytes.take(room_for(buf.len() as int, pos, bytes.len() as int)),
            ),
            text + bytes,
            pos + room_for(buf.len() as int, pos, bytes.len() as int),
        ),
        0 <= pos <= pos + room_for(buf.len() as int, pos, bytes.len() as int) <= buf.len(),
{
    reveal(emitted);
    let n = room_for(buf.len() as int, pos, bytes.len() as int);
    let after = overwritten(buf, pos, bytes.take(n));
    assert(after =~= rendered(text + bytes, after.len()));
}

impl TetrisGame {
    /// Writes the frame into `buffer`, as much of it as fits, and tells how
    /// many bytes of it were written. The rest of the buffer is filled
    /// with spaces.
    pub fn render_to_buffer(&self, buffer: &mut [u8]) -> (written: usize)
        ensures
            final(buffer)@ == rendered(frame(self@), old(buffer)@.len()),
            written == room_for(old(buffer)@.len() as int, 0, frame(self@).len() as int),
    {
        let capacity = buffer.len();
        let mut pos: usize = 0;
        let mut fill: usize = 0;
        while fill < capacity
            invariant
                fill <= capacity,
                buffer@.len() == capacity,
                buffer@.len() == old(buffer)@.len(),
                forall|i: int| 0 <= i < fill ==> buffer@[i] == SPACE,
            decreases capacity - fill,
        {
            buffer[fill] = SPACE;
            fill += 1;
        }
        let mut display_board: Board = self.board;
        if let Some(piece) = self.current_piece {
            stamp(&mut display_board, &piece);
        }
        let ghost shown = grid_of(display_board);
        assert(shown == shown_board(self@));
        let ghost mut text: Seq<u8> = Seq::empty();
        proof {
            reveal(emitted);
            assert(buffer@ =~= rendered(text, buffer@.len()));
        }

        let top_border: [u8; 3] = [0xE2, 0x95, 0x94];
        let horizontal_bar: [u8; 3] = [0xE2, 0x95, 0x90];
        let top_corner: [u8; 4] = [0xE2, 0x95, 0x97, 0x0A];
        assert(top_border@ =~= top_left());
        assert(horizontal_bar@ =~= horizontal());
        assert(top_corner@ =~= top_right());

        proof {
            lemma_emit(buffer@, text, pos as int, top_border@);
            text = text + top_border@;
        }
        pos += Self::write_bytes(buffer, pos, &top_border);
        let ghost head = text;
        let mut k: usize = 0;
        while k < BOARD_WIDTH
            invariant
                k <= BOARD_WIDTH,
                buffer@.len() == capacity,
                emitted(buffer@, text, pos as int),
                text == head + strokes(2 * k as nat),
                horizontal_bar@ == horizontal(),
            decreases BOARD_WIDTH - k,
        {
            proof {
                lemma_emit(buffer@, text, pos as int, horizontal_bar@);
                text = text + horizontal_bar@;
            }
            pos += Self::write_bytes(buffer, pos, &horizontal_bar);
            proof {
                lemma_emit(buffer@, text, pos as int, horizontal_bar@);
                text = text + horizontal_bar@;
            }
            pos += Self::write_bytes(buffer, pos, &horizontal_bar);
            proof {
                reveal_with_fuel(strokes, 3);
                assert(text =~= head + strokes(2 * (k + 1) as nat));
            }
            k += 1;
        }
        proof {
            lemma_emit(buffer@, text, pos as int, top_corner@);
            text = text + top_corner@;
        }
        pos += Self::write_bytes(buffer, pos, &top_corner);

        let left_border: [u8; 3] = [0xE2, 0x95, 0x91];
        let right_border: [u8; 4] = [0xE2, 0x95, 0x91, 0x0A];
        let filled: [u8; 6] = [0xE2, 0x96, 0x88, 0xE2, 0x96, 0x88];
        let empty: [u8; 2] = [0x20, 0x20];
        assert(left_border@ =~= left_side());
        assert(right_border@ =~= right_side());
        assert(filled@ =~= filled_cell());
        assert(empty@ =~= empty_cell());

        let ghost above = text;
        let mut r: usize = 0;
        while r < BOARD_HEIGHT
            invariant
                r <= BOARD_HEIGHT,
                buffer@.len() == capacity,
                emitted(buffer@, text, pos as int),
                text == above + row_lines(shown, r as nat),
                shown == grid_of(display_board),
                left_border@ == left_side(),
                right_border@ == right_side(),
                filled@ == filled_cell(),
                empty@ == empty_cell(),
            decreases BOARD_HEIGHT - r,
        {
            let ghost before_row = text;
            proof {
                lemma_emit(buffer@, text, pos as int, left_border@);
                text = text + left_border@;
            }
            pos += Self::write_bytes(buffer, pos, &left_border);
            let mut c: usize = 0;
            while c < BOARD_WIDTH
                invariant
                    r < BOARD_HEIGHT,
                    c <= BOARD_WIDTH,
                    buffer@.len() == capacity,
                    emitted(buffer@, text, pos as int),
                    text == before_row + left_side() + cells(shown[r as int], c as nat),
                    shown == grid_of(display_board),
                    filled@ == filled_cell(),
                    empty@ == empty_cell(),
                decreases BOARD_WIDTH - c,
            {
                let cell = display_board[r][c];
                assert(cell == shown[r as int][c as int]);
                if cell {
                    proof {
                        lemma_emit(buffer@, text, pos as int, filled@);
                        text = text + filled@;
                    }
                    pos += Self::write_bytes(buffer, pos, &filled);
                } else {
                    proof {
                        lemma_emit(buffer@, text, pos as int, empty@);
                        text = text + empty@;
                    }
                    pos += Self::write_bytes(buffer, pos, &empty);
                }
                proof {
                    assert(text =~= before_row + left_side() + cells(
                        shown[r as int],
                        (c + 1) as nat,
                    ));
                }
                c += 1;
            }
            proof {
                lemma_emit(buffer@, text, pos as int, right_border@);
                text = text + right_border@;
            }
            pos += Self::write_bytes(buffer, pos, &right_border);
            proof {
                assert(text =~= above + row_lines(shown, (r + 1) as nat));
            }
            r += 1;
        }

        let bottom_border: [u8; 3] = [0xE2, 0x95, 0x9A];
        let bottom_corner: [u8; 4] = [0xE2, 0x95, 0x9D, 0x0A];
        assert(bottom_border@ =~= bottom_left());
        assert(bottom_corner@ =~= bottom_right());
        proof {
            lemma_emit(buffer@, text, pos as int, bottom_border@);
            text = text + bottom_border@;
        }
        pos += Self::write_bytes(buffer, pos, &bottom_border);
        let ghost body = text;
        let mut k: usize = 0;
        while k < BOARD_WIDTH
            invariant
                k <= BOARD_WIDTH,
                buffer@.len() == capacity,
                emitted(buffer@, text, pos as int),
                text == body + strokes(2 * k as nat),
                horizontal_bar@ == horizontal(),
            decreases BOARD_WIDTH - k,
        {
            proof {
                lemma_emit(buffer@, text, pos as int, horizontal_bar@);
                text = text + horizontal_bar@;
            }
            pos += Self::write_bytes(buffer, pos, &horizontal_bar);
            proof {
                lemma_emit(buffer@, text, pos as int, horizontal_bar@);
                text = text + horizontal_bar@;
            }
            pos += Self::write_bytes(buffer, pos, &horizontal_bar);
            proof {
                reveal_with_fuel(strokes, 3);
                assert(text =~= body + strokes(2 * (k + 1) as nat));
            }
            k += 1;
        }
        proof {
            lemma_emit(buffer@, text, pos as int, bottom_corner@);
            text = text + bottom_corner@;
        }
        pos += Self::write_bytes(buffer, pos, &bottom_corner);

        let label: [u8; 7] = [0x53, 0x63, 0x6F, 0x72, 0x65, 0x3A, 0x20];
        let newline: [u8; 1] = [0x0A];
        assert(label@ =~= score_label());
        assert(newline@ =~= line_end());
        proof {
            lemma_emit(buffer@, text, pos as int, label@);
            text = text + label@;
        }
        pos += Self::write_bytes(buffer, pos, &label);
        proof {
            lemma_emit(buffer@, text, pos as int, decimal(self.score as nat));
            text = text + decimal(self.score as nat);
        }
        pos += Self::write_number(buffer, pos, self.score);
        proof {
            lemma_emit(buffer@, text, pos as int, newline@);
            text = text + newline@;
        }
        pos += Self::write_bytes(buffer, pos, &newline);

        if self.game_over {
            let game_over: [u8; 11] = [
                0x47,
                0x41,
                0x4D,
                0x45,
                0x20,
                0x4F,
                0x56,
                0x45,
                0x52,
                0x21,
                0x0A,
            ];
            assert(game_over@ =~= game_over_line());
            proof {
                lemma_emit(buffer@, text, pos as int, game_over@);
                text = text + game_over@;
            }
            pos += Self::write_bytes(buffer, pos, &game_over);
        }
        proof {
            reveal(emitted);
            assert(text =~= frame(self@));
        }
        pos
    }

    /// Writes `bytes` into `buffer` from position `pos` on, as many as fit,
    /// and tells how many were written.
    pub fn write_bytes(buffer: &mut [u8], pos: usize, bytes: &[u8]) -> (written: usize)
        ensures
            written == room_for(old(buffer)@.len() as int, pos as int, bytes@.len() as int),
            final(buffer)@ == overwritten(old(buffer)@, pos as int, bytes@.take(written as int)),
    {
        let mut written: usize = 0;
        while written < bytes.len()
            invariant_except_break
                written <= bytes@.len(),
            invariant
                buffer@.len() == old(buffer)@.len(),
                written == 0 || pos + written <= buffer@.len(),
                buffer@ == overwritten(old(buffer)@, pos as int, bytes@.take(written as int)),
            ensures
                written == room_for(old(buffer)@.len() as int, pos as int, bytes@.len() as int),
            decreases bytes@.len() - written,
        {
            if pos + written < buffer.len() {
                buffer[pos + written] = bytes[written];
                written += 1;
                proof {
                    assert(buffer@ =~= overwritten(
                        old(buffer)@,
                        pos as int,
                        bytes@.take(written as int),
                    ));
                }
            } else {
                break ;
            }
        }
        written
    }

    /// Writes `num` in decimal into `buffer` from position `pos` on, as many
    /// digits as fit, and tells how many were written.
    pub fn write_number(buffer: &mut [u8], pos: usize, num: u32) -> (written: usize)
        ensures
            written == room_for(
                old(buffer)@.len() as int,
                pos as int,
                decimal(num as nat).len() as int,
            ),
            final(buffer)@ == overwritten(
                old(buffer)@,
                pos as int,
                decimal(num as nat).take(written as int),
            ),
    {
        let mut num = num;
        let ghost number = num as nat;
        let mut digits: [u8; 10] = [0u8; 10];
        let mut digit_count: usize = 0;
        let ghost mut low: Seq<u8> = Seq::empty();
        if num == 0 {
            digits[0] = 0x30;
            digit_count = 1;
            proof {
                low = seq![0x30u8];
                assert(decimal(number) =~= low);
            }
        } else {
            while num > 0 && digit_count < 10
                invariant
                    digit_count <= 10,
                    number > 0,
                    num < headroom(digit_count as int),
                    low.len() == digit_count,
                    decimal(number) == leading(num as nat) + low,
                    forall|k: int|
                        0 <= k < digit_count ==> digits@[k] == low[digit_count - 1 - k],
                decreases num,
            {
                let digit: u8 = (num % 10) as u8 + 0x30;
                digits[digit_count] = digit;
                proof {
                    assert(leading(num as nat) =~= leading((num / 10) as nat) + seq![digit]);
                    low = seq![digit] + low;
                    assert(decimal(number) =~= leading((num / 10) as nat) + low);
                }
                num /= 10;
                digit_count += 1;
            }
            proof {
                assert(num == 0);
                assert(decimal(number) =~= low);
            }
        }
        let mut written: usize = 0;
        let mut i: usize = digit_count;
        while i > 0
            invariant
                i <= digit_count <= 10,
                low.len() == digit_count,
                low == decimal(number),
                forall|k: int| 0 <= k < digit_count ==> digits@[k] == low[digit_count - 1 - k],
                buffer@.len() == old(buffer)@.len(),
                written == room_for(buffer@.len() as int, pos as int, digit_count - i),
                written == 0 || pos + written <= buffer@.len(),
                buffer@ == overwritten(old(buffer)@, pos as int, low.take(written as int)),
            decreases i,
        {
            i -= 1;
            if pos + written < buffer.len() {
                buffer[pos + written] = digits[i];
                written += 1;
                proof {
                    assert(buffer@ =~= overwritten(
                        old(buffer)@,
                        pos as int,
                        low.take(written as int),
                    ));
                }
            }
        }
        written
    }
}

/// The digits that are still to be taken off a number: its decimal form,
/// or nothing once it has come down to zero.
spec fn leading(n: nat) -> Seq<u8> {
    if n == 0 {
        Seq::empty()
    } else {
        decimal(n)
    }
}

/// A bound on what is left of a 32-bit number after `taken` digits have been
/// taken off its end.
spec fn headroom(taken: int) -> int {
    if taken <= 0 {
        4294967296
    } else if taken == 1 {
        429496730
    } else if taken == 2 {
        42949673
    } else if taken == 3 {
        4294968
    } else if taken == 4 {
        429497
    } else if taken == 5 {
        42950
    } else if taken == 6 {
        4295
    } else if taken == 7 {
        430
    } else if taken == 8 {
        43
    } else if taken == 9 {
        5
    } else {
        1
    }
}

} // verus!
