//! The falling piece: a kind, the anchor of its 4x4 window on the board,
//! and a rotation state.

use crate::shape::base_shape;
use crate::shape::shape_of;
use crate::shape::Shape;
use crate::shape::ShapeMatrix;
use crate::shape::TetrominoType;
use vstd::prelude::*;

verus! {

/// Column at which the window of a new piece is anchored.
pub const SPAWN_X: i32 = 3;

/// Row at which the window of a new piece is anchored.
pub const SPAWN_Y: i32 = 0;

/// Row `r` of the window holds an occupied cell.
pub open spec fn row_used(m: Shape, r: int) -> bool {
    m[r][0] || m[r][1] || m[r][2] || m[r][3]
}

/// Column `c` of the window holds an occupied cell.
pub open spec fn column_used(m: Shape, c: int) -> bool {
    m[0][c] || m[1][c] || m[2][c] || m[3][c]
}

/// The leftmost used column, or 4 where the matrix is empty.
pub open spec fn first_column(m: Shape) -> int {
    if column_used(m, 0) {
        0
    } else if column_used(m, 1) {
        1
    } else if column_used(m, 2) {
        2
    } else if column_used(m, 3) {
        3
    } else {
        4
    }
}

/// The topmost used row, or 4 where the matrix is empty.
pub open spec fn first_row(m: Shape) -> int {
    if row_used(m, 0) {
        0
    } else if row_used(m, 1) {
        1
    } else if row_used(m, 2) {
        2
    } else if row_used(m, 3) {
        3
    } else {
        4
    }
}

/// The rightmost used column, or 0 where the matrix is empty.
pub open spec fn last_column(m: Shape) -> int {
    if column_used(m, 3) {
        3
    } else if column_used(m, 2) {
        2
    } else if column_used(m, 1) {
        1
    } else {
        0
    }
}

/// The lowest used row, or 0 where the matrix is empty.
pub open spec fn last_row(m: Shape) -> int {
    if row_used(m, 3) {
        3
    } else if row_used(m, 2) {
        2
    } else if row_used(m, 1) {
        1
    } else {
        0
    }
}

/// Every occupied cell lies inside the box that the four bounds span.
pub proof fn lemma_bounds_cover(m: Shape, r: int, c: int)
    requires
        0 <= r < 4,
        0 <= c < 4,
        m[r][c],
    ensures
        first_column(m) <= c <= last_column(m),
        first_row(m) <= r <= last_row(m),
{
}

/// Cell (r, c) of the window comes before (i, j) in row-major order.
spec fn before(r: int, c: int, i: int, j: int) -> bool {
    0 <= r < 4 && 0 <= c < 4 && (r < i || (r == i && c < j))
}

/// What the scan of `get_bounds` knows once it has read every cell before
/// (i, j): the bounds enclose the occupied cells read so far, and each bound
/// is either untouched or met by one of them.
spec fn scanned(m: Shape, i: int, j: int, b: (i32, i32, i32, i32)) -> bool {
    &&& forall|r: int, c: int|
        before(r, c, i, j) && #[trigger] m[r][c] ==> b.0 <= c <= b.2 && b.1 <= r <= b.3
    &&& {
        ||| b == (4i32, 4i32, 0i32, 0i32)
        ||| {
            &&& exists|r: int| before(r, b.0 as int, i, j) && #[trigger] m[r][b.0 as int]
            &&& exists|r: int| before(r, b.2 as int, i, j) && #[trigger] m[r][b.2 as int]
            &&& exists|c: int| before(b.1 as int, c, i, j) && #[trigger] m[b.1 as int][c]
            &&& exists|c: int| before(b.3 as int, c, i, j) && #[trigger] m[b.3 as int][c]
        }
    }
}

/// Reading one more cell keeps what the scan knows, with the bounds widened
/// to take the cell in where it is occupied.
proof fn lemma_scan_step(
    m: Shape,
    i: int,
    j: int,
    b: (i32, i32, i32, i32),
    n: (i32, i32, i32, i32),
)
    requires
        0 <= i < 4,
        0 <= j < 4,
        scanned(m, i, j, b),
        !m[i][j] ==> n == b,
        m[i][j] ==> n.0 == (if j < b.0 { j } else { b.0 as int }),
        m[i][j] ==> n.1 == (if i < b.1 { i } else { b.1 as int }),
        m[i][j] ==> n.2 == (if j > b.2 { j } else { b.2 as int }),
        m[i][j] ==> n.3 == (if i > b.3 { i } else { b.3 as int }),
    ensures
        scanned(m, i, j + 1, n),
{
    assert forall|r: int, c: int| before(r, c, i, j + 1) && #[trigger] m[r][c] implies n.0 <= c
        <= n.2 && n.1 <= r <= n.3 by {
        if !(r == i && c == j) {
            assert(before(r, c, i, j));
        }
    }
    if m[i][j] {
        assert(before(i, j, i, j + 1));
        if b == (4i32, 4i32, 0i32, 0i32) {
            assert(n.0 == j && n.1 == i && n.2 == j && n.3 == i);
            assert(m[i][n.0 as int] && m[i][n.2 as int] && m[n.1 as int][j] && m[n.3 as int][j]);
        } else {
            let r0 = choose|r: int| before(r, b.0 as int, i, j) && #[trigger] m[r][b.0 as int];
            let r2 = choose|r: int| before(r, b.2 as int, i, j) && #[trigger] m[r][b.2 as int];
            let c1 = choose|c: int| before(b.1 as int, c, i, j) && #[trigger] m[b.1 as int][c];
            let c3 = choose|c: int| before(b.3 as int, c, i, j) && #[trigger] m[b.3 as int][c];
            let w0 = if j < b.0 { i } else { r0 };
            let w2 = if j > b.2 { i } else { r2 };
            let w1 = if i < b.1 { j } else { c1 };
            let w3 = if i > b.3 { j } else { c3 };
            assert(before(w0, n.0 as int, i, j + 1) && m[w0][n.0 as int]);
            assert(before(w2, n.2 as int, i, j + 1) && m[w2][n.2 as int]);
            assert(before(n.1 as int, w1, i, j + 1) && m[n.1 as int][w1]);
            assert(before(n.3 as int, w3, i, j + 1) && m[n.3 as int][w3]);
        }
    } else if b != (4i32, 4i32, 0i32, 0i32) {
        let r0 = choose|r: int| before(r, b.0 as int, i, j) && #[trigger] m[r][b.0 as int];
        let r2 = choose|r: int| before(r, b.2 as int, i, j) && #[trigger] m[r][b.2 as int];
        let c1 = choose|c: int| before(b.1 as int, c, i, j) && #[trigger] m[b.1 as int][c];
        let c3 = choose|c: int| before(b.3 as int, c, i, j) && #[trigger] m[b.3 as int][c];
        assert(before(r0, n.0 as int, i, j + 1) && m[r0][n.0 as int]);
        assert(before(r2, n.2 as int, i, j + 1) && m[r2][n.2 as int]);
        assert(before(n.1 as int, c1, i, j + 1) && m[n.1 as int][c1]);
        assert(before(n.3 as int, c3, i, j + 1) && m[n.3 as int][c3]);
    }
}

/// A scan that has read a whole row stands at the start of the next one.
proof fn lemma_scan_next_row(m: Shape, i: int, b: (i32, i32, i32, i32))
    requires
        0 <= i < 4,
        scanned(m, i, 4, b),
    ensures
        scanned(m, i + 1, 0, b),
{
    assert forall|r: int, c: int| before(r, c, i + 1, 0) && #[trigger] m[r][c] implies b.0 <= c
        <= b.2 && b.1 <= r <= b.3 by {
        assert(before(r, c, i, 4));
    }
    if b != (4i32, 4i32, 0i32, 0i32) {
        let r0 = choose|r: int| before(r, b.0 as int, i, 4) && #[trigger] m[r][b.0 as int];
        let r2 = choose|r: int| before(r, b.2 as int, i, 4) && #[trigger] m[r][b.2 as int];
        let c1 = choose|c: int| before(b.1 as int, c, i, 4) && #[trigger] m[b.1 as int][c];
        let c3 = choose|c: int| before(b.3 as int, c, i, 4) && #[trigger] m[b.3 as int][c];
        assert(before(r0, b.0 as int, i + 1, 0) && m[r0][b.0 as int]);
        assert(before(r2, b.2 as int, i + 1, 0) && m[r2][b.2 as int]);
        assert(before(b.1 as int, c1, i + 1, 0) && m[b.1 as int][c1]);
        assert(before(b.3 as int, c3, i + 1, 0) && m[b.3 as int][c3]);
    }
}

/// A finished scan holds the tight bounding box.
proof fn lemma_scan_done(m: Shape, b: (i32, i32, i32, i32))
    requires
        scanned(m, 4, 0, b),
    ensures
        b.0 == first_column(m),
        b.1 == first_row(m),
        b.2 == last_column(m),
        b.3 == last_row(m),
{
    assert forall|r: int, c: int| 0 <= r < 4 && 0 <= c < 4 && #[trigger] m[r][c] implies b.0 <= c
        <= b.2 && b.1 <= r <= b.3 by {
        assert(before(r, c, 4, 0));
    }
    if b != (4i32, 4i32, 0i32, 0i32) {
        let r0 = choose|r: int| before(r, b.0 as int, 4, 0) && #[trigger] m[r][b.0 as int];
        let r2 = choose|r: int| before(r, b.2 as int, 4, 0) && #[trigger] m[r][b.2 as int];
        let c1 = choose|c: int| before(b.1 as int, c, 4, 0) && #[trigger] m[b.1 as int][c];
        let c3 = choose|c: int| before(b.3 as int, c, 4, 0) && #[trigger] m[b.3 as int][c];
        lemma_bounds_cover(m, r0, b.0 as int);
        lemma_bounds_cover(m, r2, b.2 as int);
        lemma_bounds_cover(m, b.1 as int, c1);
        lemma_bounds_cover(m, b.3 as int, c3);
    }
}

#[derive(Debug, Clone, Copy, PartialEq, Eq, Structural)]
pub struct Tetromino {
    pub piece_type: TetrominoType,
    pub x: i32,
    pub y: i32,
    pub rotation: u8,
}

/// The piece of a kind as it enters the board.
pub open spec fn spawned(kind: TetrominoType) -> Tetromino {
    Tetromino { piece_type: kind, x: SPAWN_X, y: SPAWN_Y, rotation: 0 }
}

impl Tetromino {
    /// The occupancy matrix of the piece in its present rotation.
    pub open spec fn shape(&self) -> Shape {
        shape_of(self.piece_type, self.rotation)
    }

    pub fn new(piece_type: TetrominoType) -> (piece: Self)
        ensures
            piece == spawned(piece_type),
    {
        Self { piece_type, x: SPAWN_X, y: SPAWN_Y, rotation: 0 }
    }

    /// The base matrix of a kind.
    pub fn base(piece_type: TetrominoType) -> (m: Shape)
        ensures
            m == base_shape(piece_type),
    {
        match piece_type {
            TetrominoType::I => [
                [false, false, false, false],
                [true, true, true, true],
                [false, false, false, false],
                [false, false, false, false],
            ],
            TetrominoType::O => [
                [false, false, false, false],
                [false, true, true, false],
                [false, true, true, false],
                [false, false, false, false],
            ],
            TetrominoType::T => [
                [false, false, false, false],
                [false, true, false, false],
                [true, true, true, false],
                [false, false, false, false],
            ],
            TetrominoType::S => [
                [false, false, false, false],
                [false, true, true, false],
                [true, true, false, false],
                [false, false, false, false],
            ],
            TetrominoType::Z => [
                [false, false, false, false],
                [true, true, false, false],
                [false, true, true, false],
                [false, false, false, false],
            ],
            TetrominoType::J => [
                [false, false, false, false],
                [true, false, false, false],
                [true, true, true, false],
                [false, false, false, false],
            ],
            TetrominoType::L => [
                [false, false, false, false],
                [false, false, true, false],
                [true, true, true, false],
                [false, false, false, false],
            ],
        }
    }

    pub fn get_shape(&self) -> (m: Shape)
        ensures
            m == self.shape(),
    {
        let table = ShapeMatrix::from_base(Self::base(self.piece_type));
        let state: usize = (self.rotation % 4) as usize;
        table.rotations[state]
    }

    /// The tight bounding box of the occupied cells of `shape`, as
    /// (leftmost column, topmost row, rightmost column, lowest row).
    pub fn get_bounds(&self, shape: &Shape) -> (b: (i32, i32, i32, i32))
        ensures
            b.0 == first_column(*shape),
            b.1 == first_row(*shape),
            b.2 == last_column(*shape),
            b.3 == last_row(*shape),
    {
        let mut min_x: i32 = 4;
        let mut min_y: i32 = 4;
        let mut max_x: i32 = 0;
        let mut max_y: i32 = 0;
        let mut i: usize = 0;
        while i < 4
            invariant
                i <= 4,
                scanned(*shape, i as int, 0, (min_x, min_y, max_x, max_y)),
            decreases 4 - i,
        {
            let mut j: usize = 0;
            while j < 4
                invariant
                    i < 4,
                    j <= 4,
                    scanned(*shape, i as int, j as int, (min_x, min_y, max_x, max_y)),
                decreases 4 - j,
            {
                let ghost before_cell = (min_x, min_y, max_x, max_y);
                if shape[i][j] {
                    if (j as i32) < min_x {
                        min_x = j as i32;
                    }
                    if (i as i32) < min_y {
                        min_y = i as i32;
                    }
                    if (j as i32) > max_x {
                        max_x = j as i32;
                    }
                    if (i as i32) > max_y {
                        max_y = i as i32;
                    }
                }
                proof {
                    lemma_scan_step(
                        *shape,
                        i as int,
                        j as int,
                        before_cell,
                        (min_x, min_y, max_x, max_y),
                    );
                }
                j += 1;
            }
            proof {
                lemma_scan_next_row(*shape, i as int, (min_x, min_y, max_x, max_y));
            }
            i += 1;
        }
        proof {
            lemma_scan_done(*shape, (min_x, min_y, max_x, max_y));
        }
        (min_x, min_y, max_x, max_y)
    }
}

} // verus!
