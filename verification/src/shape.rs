//! The seven tetromino kinds, their occupancy matrices and quarter turns.

use vstd::prelude::*;

verus! {

/// A 4x4 occupancy matrix, indexed by row and then by column.
pub type Shape = [[bool; 4]; 4];

#[derive(Debug, Clone, Copy, PartialEq, Eq, Structural)]
pub enum TetrominoType {
    I,
    O,
    T,
    S,
    Z,
    J,
    L,
}

/// The matrix of a kind in its spawn orientation.
pub open spec fn base_shape(kind: TetrominoType) -> Shape {
    match kind {
        TetrominoType::I => [
            [false, false, false, false],
            [true, true, true, true],
            [false, false, false, false],
            [false, false, false, false],
        ],
        TetrominoType::O => [
            [false, false, false, false],
            [false, true, true, false],
            [false, true, true, false],
            [false, false, false, false],
        ],
        TetrominoType::T => [
            [false, false, false, false],
            [false, true, false, false],
            [true, true, true, false],
            [false, false, false, false],
        ],
        TetrominoType::S => [
            [false, false, false, false],
            [false, true, true, false],
            [true, true, false, false],
            [false, false, false, false],
        ],
        TetrominoType::Z => [
            [false, false, false, false],
            [true, true, false, false],
            [false, true, true, false],
            [false, false, false, false],
        ],
        TetrominoType::J => [
            [false, false, false, false],
            [true, false, false, false],
            [true, true, true, false],
            [false, false, false, false],
        ],
        TetrominoType::L => [
            [false, false, false, false],
            [false, false, true, false],
            [true, true, true, false],
            [false, false, false, false],
        ],
    }
}

/// `m` turned clockwise by a quarter: cell (r, c) of the result is cell
/// (3 - c, r) of `m`.
pub open spec fn quarter_turn(m: Shape) -> Shape {
    [
        [m[3][0], m[2][0], m[1][0], m[0][0]],
        [m[3][1], m[2][1], m[1][1], m[0][1]],
        [m[3][2], m[2][2], m[1][2], m[0][2]],
        [m[3][3], m[2][3], m[1][3], m[0][3]],
    ]
}

/// `m` after `n` quarter turns.
pub open spec fn turns(m: Shape, n: nat) -> Shape
    decreases n,
{
    if n == 0 {
        m
    } else {
        quarter_turn(turns(m, (n - 1) as nat))
    }
}

/// The matrix of a kind in a rotation state; the state counts modulo 4.
pub open spec fn shape_of(kind: TetrominoType, rotation: u8) -> Shape {
    turns(base_shape(kind), (rotation % 4) as nat)
}

/// Two matrices with the same sixteen cells are the same matrix.
pub proof fn lemma_shape_ext(a: Shape, b: Shape)
    requires
        forall|r: int, c: int| 0 <= r < 4 && 0 <= c < 4 ==> a[r][c] == b[r][c],
    ensures
        a == b,
{
    assert forall|r: int| 0 <= r < 4 implies a[r] == b[r] by {
        assert(forall|c: int| 0 <= c < 4 ==> a[r][c] == b[r][c]);
        assert(a[r] =~= b[r]);
    }
    assert(a =~= b);
}

/// Four quarter turns give back the matrix that was turned.
pub proof fn lemma_four_turns(m: Shape)
    ensures
        turns(m, 4) == m,
{
    reveal_with_fuel(turns, 5);
    lemma_shape_ext(turns(m, 4), m);
}

/// Turning is cyclic with period four, from any number of turns on.
pub proof fn lemma_turns_cycle(m: Shape, n: nat)
    ensures
        turns(m, n + 4) == turns(m, n),
    decreases n,
{
    if n == 0 {
        lemma_four_turns(m);
    } else {
        lemma_turns_cycle(m, (n - 1) as nat);
    }
}

/// The rotation state that a quarter turn leads to.
pub open spec fn next_rotation(rotation: u8) -> u8 {
    ((rotation % 4 + 1) % 4) as u8
}

/// The rotation state that follows shows the matrix turned by a quarter; so
/// does state 0, which follows state 3.
pub proof fn lemma_next_rotation_turns(kind: TetrominoType, rotation: u8)
    ensures
        shape_of(kind, next_rotation(rotation)) == quarter_turn(shape_of(kind, rotation)),
{
    reveal_with_fuel(turns, 5);
    lemma_four_turns(base_shape(kind));
}

/// Four rotation steps in a row give back the matrix of the state they
/// started from.
pub proof fn lemma_four_rotations(kind: TetrominoType, rotation: u8)
    ensures
        shape_of(kind, next_rotation(next_rotation(next_rotation(next_rotation(rotation)))))
            == shape_of(kind, rotation),
{
}

/// The matrix has an occupied cell.
pub open spec fn has_cell(m: Shape) -> bool {
    exists|r: int, c: int| 0 <= r < 4 && 0 <= c < 4 && #[trigger] m[r][c]
}

/// Turning a matrix moves its occupied cells and loses none.
pub proof fn lemma_turns_keep_a_cell(m: Shape, n: nat)
    requires
        has_cell(m),
    ensures
        has_cell(turns(m, n)),
    decreases n,
{
    if n > 0 {
        lemma_turns_keep_a_cell(m, (n - 1) as nat);
        let before = turns(m, (n - 1) as nat);
        let (r, c) = choose|r: int, c: int| 0 <= r < 4 && 0 <= c < 4 && #[trigger] before[r][c];
        assert(quarter_turn(before)[c][3 - r]);
    }
}

/// Every kind has an occupied cell in every rotation state.
pub proof fn lemma_shape_has_cell(kind: TetrominoType, rotation: u8)
    ensures
        has_cell(shape_of(kind, rotation)),
{
    let base = base_shape(kind);
    assert(base[1][1] || base[2][1]);
    lemma_turns_keep_a_cell(base, (rotation % 4) as nat);
}

/// The four rotation states of one kind, built from its base matrix.
#[derive(Debug, Clone, Copy)]
pub struct ShapeMatrix {
    pub rotations: [[[bool; 4]; 4]; 4],
}

impl ShapeMatrix {
    /// State `k` of the table is the base matrix after `k` quarter turns.
    pub open spec fn is_table_of(&self, base: Shape) -> bool {
        forall|k: int| 0 <= k < 4 ==> #[trigger] self.rotations[k] == turns(base, k as nat)
    }

    pub fn from_base(base: Shape) -> (table: Self)
        ensures
            table.is_table_of(base),
    {
        let mut rotations: [[[bool; 4]; 4]; 4] = [[[false; 4]; 4]; 4];
        rotations[0] = base;
        rotations[1] = Self::rotate_once(base);
        rotations[2] = Self::rotate_once(rotations[1]);
        rotations[3] = Self::rotate_once(rotations[2]);
        proof {
            reveal_with_fuel(turns, 4);
        }
        Self { rotations }
    }

    pub fn rotate_once(matrix: Shape) -> (rotated: Shape)
        ensures
            rotated == quarter_turn(matrix),
    {
        let mut rotated: Shape = [[false; 4]; 4];
        let mut i: usize = 0;
        while i < 4
            invariant
                i <= 4,
                forall|a: int, b: int|
                    0 <= a < i && 0 <= b < 4 ==> rotated[b][3 - a] == matrix[a][b],
            decreases 4 - i,
        {
            let mut j: usize = 0;
            while j < 4
                invariant
                    i < 4,
                    j <= 4,
                    forall|a: int, b: int|
                        0 <= a < i && 0 <= b < 4 ==> rotated[b][3 - a] == matrix[a][b],
                    forall|b: int| 0 <= b < j ==> rotated[b][3 - i] == matrix[i as int][b],
                decreases 4 - j,
            {
                rotated[j][3 - i] = matrix[i][j];
                j += 1;
            }
            i += 1;
        }
        proof {
            assert forall|r: int, c: int| 0 <= r < 4 && 0 <= c < 4 implies rotated[r][c]
                == quarter_turn(matrix)[r][c] by {
                assert(rotated[r][3 - (3 - c)] == matrix[3 - c][r]);
            }
            lemma_shape_ext(rotated, quarter_turn(matrix));
        }
        rotated
    }
}

} // verus!
