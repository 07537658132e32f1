//! What holds of the engine whatever the state: its invariant and the moves
//! that keep it, where a dropped piece lands, what a reset gives, how
//! collisions behave under shifts, and how long a frame can be.

use crate::bag::bag_ok;
use crate::bag::lemma_draw_bag_ok;
use crate::bag::lemma_initial_order;
use crate::board::blank_grid;
use crate::board::blocked;
use crate::board::collides;
use crate::board::compacted;
use crate::board::full_rows;
use crate::board::hits;
use crate::board::is_grid;
use crate::board::kept_rows;
use crate::board::lemma_kept_rows_len;
use crate::board::lemma_off_board_hits;
use crate::board::stamped;
use crate::board::Grid;
use crate::board::BOARD_HEIGHT;
use crate::board::BOARD_WIDTH;
use crate::game::can_place;
use crate::game::cleared;
use crate::game::fresh;
use crate::game::hard_dropped;
use crate::game::landing_row;
use crate::game::lemma_can_place_near;
use crate::game::locked;
use crate::game::placed;
use crate::game::shifted;
use crate::game::soft_dropped;
use crate::game::spawn;
use crate::game::started;
use crate::game::GameView;
use crate::piece::spawned;
use crate::piece::Tetromino;
use crate::render::cells;
use crate::render::decimal;
use crate::render::frame;
use crate::render::row_line;
use crate::render::row_lines;
use crate::render::strokes;
use crate::shape::has_cell;
use crate::shape::lemma_shape_has_cell;
use crate::shape::shape_of;
use crate::shape::Shape;
use vstd::prelude::*;

verus! {

/// The invariant of a game: the board has its size, the bag holds each kind
/// once with its cursor inside or just past it, the active piece, where
/// there is one, has a rotation state below 4 and stands free, and a game
/// that is over has no active piece.
pub open spec fn well_formed(g: GameView) -> bool {
    &&& is_grid(g.board)
    &&& bag_ok(g.bag)
    &&& g.game_over ==> g.current_piece is None
    &&& match g.current_piece {
        Some(p) => p.rotation < 4 && !collides(g.board, p),
        None => true,
    }
}

/// A fresh game: an empty board, no score, not over, and a piece in play.
pub open spec fn is_fresh(g: GameView) -> bool {
    &&& g.board == blank_grid()
    &&& g.score == 0
    &&& !g.game_over
    &&& g.current_piece is Some
}

/// Nothing that fits in the 4x4 window hits an empty board at the spawn
/// position.
pub proof fn lemma_spawn_position_free(m: Shape)
    ensures
        !hits(blank_grid(), m, 3, 0),
{
}

/// A new game is well formed.
pub proof fn lemma_started_well_formed(seed: u64)
    ensures
        well_formed(started(seed)),
{
    lemma_initial_order();
    let bag = crate::bag::BagView {
        order: crate::bag::initial_order(),
        cursor: 7,
        rng: crate::prng::seeded_state(seed),
    };
    lemma_draw_bag_ok(bag);
}

/// Spawning keeps the invariant.
pub proof fn lemma_spawn_well_formed(g: GameView)
    requires
        well_formed(g),
    ensures
        well_formed(spawn(g)),
{
    lemma_draw_bag_ok(g.bag);
}

/// The rows that line clearing keeps are rows of the board.
pub proof fn lemma_kept_rows_are_rows(g: Grid, k: int)
    requires
        0 <= k < kept_rows(g).len(),
    ensures
        exists|r: int| 0 <= r < g.len() && #[trigger] g[r] == kept_rows(g)[k] && !crate::board::row_full(g[r]),
    decreases g.len(),
{
    if g.len() > 0 {
        let rest = g.drop_first();
        if crate::board::row_full(g[0]) {
            lemma_kept_rows_are_rows(rest, k);
            let r = choose|r: int| 0 <= r < rest.len() && #[trigger] rest[r] == kept_rows(rest)[k] && !crate::board::row_full(rest[r]);
            assert(g[r + 1] == rest[r]);
        } else if k == 0 {
            assert(g[0] == kept_rows(g)[0]);
        } else {
            lemma_kept_rows_are_rows(rest, k - 1);
            let r = choose|r: int| 0 <= r < rest.len() && #[trigger] rest[r] == kept_rows(rest)[k - 1] && !crate::board::row_full(rest[r]);
            assert(g[r + 1] == rest[r]);
        }
    }
}

/// Line clearing keeps the size of the board and leaves no full row.
pub proof fn lemma_compacted_is_grid(g: Grid)
    requires
        is_grid(g),
    ensures
        is_grid(compacted(g)),
        full_rows(compacted(g)) == 0,
        forall|r: int| 0 <= r < BOARD_HEIGHT ==> !crate::board::row_full(#[trigger] compacted(g)[r]),
{
    lemma_kept_rows_len(g);
    let after = compacted(g);
    let n = full_rows(g) as int;
    assert forall|r: int| 0 <= r < BOARD_HEIGHT implies (#[trigger] after[r]).len() == BOARD_WIDTH
        && !crate::board::row_full(after[r]) by {
        if r >= n {
            lemma_kept_rows_are_rows(g, r - n);
        } else {
            assert(!after[r][0]);
        }
    }
    lemma_no_full_rows(after);
}

/// A board without a full row keeps all its rows.
pub proof fn lemma_no_full_rows(g: Grid)
    requires
        forall|r: int| 0 <= r < g.len() ==> !crate::board::row_full(#[trigger] g[r]),
    ensures
        kept_rows(g) == g,
        full_rows(g) == 0,
    decreases g.len(),
{
    if g.len() > 0 {
        let rest = g.drop_first();
        assert forall|r: int| 0 <= r < rest.len() implies !crate::board::row_full(#[trigger] rest[r]) by {
            assert(rest[r] == g[r + 1]);
        }
        lemma_no_full_rows(rest);
        assert(!crate::board::row_full(g[0]));
        assert(kept_rows(g) =~= g);
    }
}

/// The score never falls but by a reset: spawning, sideways steps and
/// quarter turns keep it, and line clearing, locking and drops keep or raise
/// it.
pub proof fn lemma_score_never_falls(g: GameView, dx: int, turn: int)
    ensures
        spawn(g).score == g.score,
        shifted(g, dx, turn).score == g.score,
        cleared(g).score >= g.score,
        locked(g).score >= g.score,
        soft_dropped(g).score >= g.score,
        hard_dropped(g).score >= g.score,
{
}

/// Locking keeps the invariant.
pub proof fn lemma_locked_well_formed(g: GameView)
    requires
        well_formed(g),
    ensures
        well_formed(locked(g)),
{
    if let Some(p) = g.current_piece {
        let stamped_game = GameView {
            board: stamped(g.board, p.shape(), p.x as int, p.y as int),
            current_piece: None,
            ..g
        };
        assert(is_grid(stamped_game.board));
        lemma_compacted_is_grid(stamped_game.board);
        lemma_spawn_well_formed(cleared(stamped_game));
    }
}

/// A sideways step or a quarter turn keeps the invariant and the board.
pub proof fn lemma_shifted_well_formed(g: GameView, dx: int, turn: int)
    requires
        well_formed(g),
    ensures
        well_formed(shifted(g, dx, turn)),
        shifted(g, dx, turn).board == g.board,
{
    if can_place(g, dx, 0, turn) {
        lemma_can_place_near(g, dx, 0, turn);
        let p = g.current_piece->0;
        let q = placed(g, dx, 0, turn).current_piece->0;
        assert(q.shape() == shape_of(p.piece_type, ((p.rotation % 4 + turn) % 4) as u8));
    }
}

/// A soft drop keeps the invariant.
pub proof fn lemma_soft_dropped_well_formed(g: GameView)
    requires
        well_formed(g),
    ensures
        well_formed(soft_dropped(g)),
{
    if can_place(g, 0, 1, 0) {
        lemma_can_place_near(g, 0, 1, 0);
        let p = g.current_piece->0;
        let q = placed(g, 0, 1, 0).current_piece->0;
        assert(q.shape() == shape_of(p.piece_type, ((p.rotation % 4 + 0) % 4) as u8));
    } else {
        lemma_locked_well_formed(g);
    }
}

/// Where a falling matrix lands: at or below the row it falls from, with
/// every row it passes on the way free, the landing row among them, and the
/// row below the landing row not free. So the landing row is the lowest row
/// the matrix can reach by falling.
pub proof fn lemma_landing_row(g: Grid, m: Shape, x: int, y: int)
    requires
        has_cell(m),
    ensures
        y <= landing_row(g, m, x, y),
        landing_row(g, m, x, y) < BOARD_HEIGHT || landing_row(g, m, x, y) == y,
        forall|k: int| y < k <= landing_row(g, m, x, y) ==> !hits(g, m, x, k),
        hits(g, m, x, landing_row(g, m, x, y) + 1),
    decreases BOARD_HEIGHT - y,
{
    if y >= BOARD_HEIGHT - 1 {
        lemma_off_board_hits(g, m, x, y + 1);
    } else if !hits(g, m, x, y + 1) {
        lemma_landing_row(g, m, x, y + 1);
    }
}

/// A hard drop keeps the invariant.
pub proof fn lemma_hard_dropped_well_formed(g: GameView)
    requires
        well_formed(g),
    ensures
        well_formed(hard_dropped(g)),
{
    if let Some(p) = g.current_piece {
        lemma_shape_has_cell(p.piece_type, p.rotation);
        lemma_landing_row(g.board, p.shape(), p.x as int, p.y as int);
        let row = landing_row(g.board, p.shape(), p.x as int, p.y as int);
        let landed = Tetromino { piece_type: p.piece_type, x: p.x, y: row as i32, rotation: p.rotation };
        assert(landed.shape() == p.shape());
        lemma_locked_well_formed(GameView { current_piece: Some(landed), ..g });
    }
}

/// A reset gives a fresh game from any state, and a well-formed one where
/// the bag was in order.
pub proof fn lemma_reset_fresh(g: GameView)
    ensures
        is_fresh(fresh(g)),
        fresh(g).current_piece == Some(spawned(g.next_piece_type)),
        bag_ok(g.bag) ==> well_formed(fresh(g)),
{
    lemma_spawn_position_free(spawned(g.next_piece_type).shape());
    if bag_ok(g.bag) {
        lemma_draw_bag_ok(g.bag);
    }
}

/// A second reset gives what the first one gave: an empty board, no score,
/// the game not over, and a piece in play.
pub proof fn lemma_reset_twice(g: GameView)
    ensures
        is_fresh(fresh(g)),
        is_fresh(fresh(fresh(g))),
        fresh(fresh(g)).board == fresh(g).board,
        fresh(fresh(g)).score == fresh(g).score,
        fresh(fresh(g)).game_over == fresh(g).game_over,
{
    lemma_reset_fresh(g);
    lemma_reset_fresh(fresh(g));
}

/// The matrix, anchored at (`x`, `y`), has an occupied cell on a cell of the
/// region.
pub open spec fn touches(m: Shape, x: int, y: int, region: spec_fn(int, int) -> bool) -> bool {
    exists|r: int, c: int| 0 <= r < 4 && 0 <= c < 4 && #[trigger] m[r][c] && region(x + c, y + r)
}

/// Collision is monotone under a shift into a blocked region. Let a region
/// of cells be blocked throughout, and let a step by (`dx`, `dy`) lead from
/// each of its cells to another of its cells. Then a matrix that has a cell
/// in the region still hits after any number of such steps.
pub proof fn lemma_collision_monotone(
    g: Grid,
    m: Shape,
    x: int,
    y: int,
    dx: int,
    dy: int,
    steps: nat,
    region: spec_fn(int, int) -> bool,
)
    requires
        forall|col: int, row: int| #[trigger] region(col, row) ==> blocked(g, col, row),
        forall|col: int, row: int| #[trigger] region(col, row) ==> region(col + dx, row + dy),
        touches(m, x, y, region),
    ensures
        touches(m, x + steps * dx, y + steps * dy, region),
        hits(g, m, x + steps * dx, y + steps * dy),
    decreases steps,
{
    let tx = x + steps * dx;
    let ty = y + steps * dy;
    if steps == 0 {
        assert(tx == x && ty == y) by (nonlinear_arith)
            requires
                steps == 0,
                tx == x + steps * dx,
                ty == y + steps * dy,
        ;
        let (r, c) = choose|r: int, c: int|
            0 <= r < 4 && 0 <= c < 4 && #[trigger] m[r][c] && region(x + c, y + r);
        assert(m[r][c] && region(tx + c, ty + r));
        assert(blocked(g, tx + c, ty + r));
    } else {
        lemma_collision_monotone(g, m, x, y, dx, dy, (steps - 1) as nat, region);
        let px = x + (steps - 1) * dx;
        let py = y + (steps - 1) * dy;
        let (r, c) = choose|r: int, c: int|
            0 <= r < 4 && 0 <= c < 4 && #[trigger] m[r][c] && region(px + c, py + r);
        assert(px + dx == tx && py + dy == ty) by (nonlinear_arith)
            requires
                px == x + (steps - 1) * dx,
                py == y + (steps - 1) * dy,
                tx == x + steps * dx,
                ty == y + steps * dy,
        ;
        assert(region((px + c) + dx, (py + r) + dy));
        assert((px + c) + dx == tx + c && (py + r) + dy == ty + r);
        assert(m[r][c] && region(tx + c, ty + r));
        assert(blocked(g, tx + c, ty + r));
    }
}

/// A matrix with a cell past the left wall hits wherever it is moved
/// further left.
pub proof fn lemma_left_wall_monotone(g: Grid, m: Shape, x: int, y: int, further: nat)
    requires
        touches(m, x, y, |col: int, row: int| col < 0),
    ensures
        hits(g, m, x - further, y),
{
    lemma_collision_monotone(g, m, x, y, -1, 0, further, |col: int, row: int| col < 0);
    assert(x + further * (-1) == x - further) by (nonlinear_arith);
    assert(y + further * 0 == y) by (nonlinear_arith);
}

/// A matrix with a cell past the right wall hits wherever it is moved
/// further right.
pub proof fn lemma_right_wall_monotone(g: Grid, m: Shape, x: int, y: int, further: nat)
    requires
        touches(m, x, y, |col: int, row: int| col >= BOARD_WIDTH),
    ensures
        hits(g, m, x + further, y),
{
    lemma_collision_monotone(g, m, x, y, 1, 0, further, |col: int, row: int| col >= BOARD_WIDTH);
    assert(x + further * 1 == x + further) by (nonlinear_arith);
    assert(y + further * 0 == y) by (nonlinear_arith);
}

/// A matrix with a cell below the floor hits wherever it is moved further
/// down.
pub proof fn lemma_floor_monotone(g: Grid, m: Shape, x: int, y: int, further: nat)
    requires
        touches(m, x, y, |col: int, row: int| row >= BOARD_HEIGHT),
    ensures
        hits(g, m, x, y + further),
{
    lemma_collision_monotone(g, m, x, y, 0, 1, further, |col: int, row: int| row >= BOARD_HEIGHT);
    assert(x + further * 0 == x) by (nonlinear_arith);
    assert(y + further * 1 == y + further) by (nonlinear_arith);
}

/// `n` strokes take three bytes each.
pub proof fn lemma_strokes_len(n: nat)
    ensures
        strokes(n).len() == 3 * n,
    decreases n,
{
    if n > 0 {
        lemma_strokes_len((n - 1) as nat);
    }
}

/// A cell takes two bytes where it is free and six where it is occupied.
pub proof fn lemma_cells_len(row: Seq<bool>, n: nat)
    ensures
        2 * n <= cells(row, n).len() <= 6 * n,
    decreases n,
{
    if n > 0 {
        lemma_cells_len(row, (n - 1) as nat);
    }
}

/// A row line takes between 27 and 67 bytes.
pub proof fn lemma_row_lines_len(g: Grid, n: nat)
    ensures
        27 * n <= row_lines(g, n).len() <= 67 * n,
    decreases n,
{
    if n > 0 {
        lemma_row_lines_len(g, (n - 1) as nat);
        lemma_cells_len(g[n - 1], BOARD_WIDTH as nat);
        assert(27 <= row_line(g[n - 1]).len() <= 67);
    }
}

/// A 32-bit number takes between one and ten digits.
pub proof fn lemma_decimal_len(n: nat)
    requires
        n <= u32::MAX,
    ensures
        1 <= decimal(n).len() <= 10,
{
    reveal_with_fuel(decimal, 11);
}

/// A frame takes between 683 and 1503 bytes.
pub proof fn lemma_frame_len(g: GameView)
    ensures
        683 <= frame(g).len() <= 1503,
{
    lemma_strokes_len(20);
    lemma_row_lines_len(crate::render::shown_board(g), 20);
    lemma_decimal_len(g.score as nat);
}

} // verus!
