//! The game controller: spawning, moving, rotating, dropping and locking
//! pieces, scoring, game over and reset.

use crate::bag::bag_ok;
use crate::bag::BAG_SIZE;
use crate::bag::BagView;
use crate::bag::draw;
use crate::bag::initial_order;
use crate::board::blank_grid;
use crate::board::Board;
use crate::board::BOARD_HEIGHT;
use crate::board::BOARD_WIDTH;
use crate::board::collides;
use crate::board::compacted;
use crate::board::full_rows;
use crate::board::Grid;
use crate::board::grid_of;
use crate::board::hits;
use crate::board::lemma_off_board_hits;
use crate::board::line_score;
use crate::board::stamp;
use crate::board::stamped;
use crate::laws::is_fresh;
use crate::laws::lemma_hard_dropped_well_formed;
use crate::laws::lemma_locked_well_formed;
use crate::laws::lemma_reset_fresh;
use crate::laws::lemma_score_never_falls;
use crate::laws::lemma_shifted_well_formed;
use crate::laws::lemma_soft_dropped_well_formed;
use crate::laws::lemma_spawn_well_formed;
use crate::laws::lemma_started_well_formed;
use crate::laws::well_formed;
use crate::piece::spawned;
use crate::piece::Tetromino;
use crate::prng::PRNG;
use crate::prng::seeded_state;
use crate::shape::lemma_shape_has_cell;
use crate::shape::Shape;
use crate::shape::shape_of;
use crate::shape::TetrominoType;
use vstd::prelude::*;

verus! {

/// A game as a mathematical value.
#[verifier::ext_equal]
pub struct GameView {
    pub board: Grid,
    pub current_piece: Option<Tetromino>,
    pub score: u32,
    pub game_over: bool,
    pub next_piece_type: TetrominoType,
    pub bag: BagView,
}

/// A game in play: the board, the active piece, the score, and the
/// randomizer that serves the pieces.
#[derive(Debug, Clone)]
pub struct TetrisGame {
    pub board: Board,
    pub current_piece: Option<Tetromino>,
    pub score: u32,
    pub game_over: bool,
    pub next_piece_type: TetrominoType,
    pub bag: [TetrominoType; 7],
    pub bag_idx: usize,
    pub prng: PRNG,
}

impl View for TetrisGame {
    type V = GameView;

    open spec fn view(&self) -> GameView {
        GameView {
            board: grid_of(self.board),
            current_piece: self.current_piece,
            score: self.score,
            game_over: self.game_over,
            next_piece_type: self.next_piece_type,
            bag: BagView { order: self.bag@, cursor: self.bag_idx as int, rng: self.prng.state },
        }
    }
}

/// `score` raised by `points`, held at the largest value a score can take.
pub open spec fn raised(score: u32, points: nat) -> u32 {
    if score + points > u32::MAX {
        u32::MAX
    } else {
        (score + points) as u32
    }
}

/// Line clearing: the full rows leave the board and are paid for.
pub open spec fn cleared(g: GameView) -> GameView {
    GameView {
        board: compacted(g.board),
        score: raised(g.score, line_score(full_rows(g.board))),
        ..g
    }
}

/// Spawning: nothing once the game is over; else the next kind enters at the
/// spawn position. Where it collides there the game is over and no piece is
/// in play; otherwise it is the active piece, and the kind that follows is
/// drawn.
pub open spec fn spawn(g: GameView) -> GameView {
    if g.game_over {
        g
    } else if collides(g.board, spawned(g.next_piece_type)) {
        GameView { game_over: true, current_piece: None, ..g }
    } else {
        GameView {
            current_piece: Some(spawned(g.next_piece_type)),
            next_piece_type: draw(g.bag).0,
            bag: draw(g.bag).1,
            ..g
        }
    }
}

/// Locking: the active piece is stamped onto the board and discarded, full
/// lines are cleared, and the next piece is spawned.
pub open spec fn locked(g: GameView) -> GameView {
    match g.current_piece {
        Some(p) => spawn(
            cleared(
                GameView {
                    board: stamped(g.board, p.shape(), p.x as int, p.y as int),
                    current_piece: None,
                    ..g
                },
            ),
        ),
        None => g,
    }
}

/// The game is not over, and its active piece can stand `dx` columns to the
/// right and `dy` rows below where it is, in the rotation state `turn` steps
/// on.
pub open spec fn can_place(g: GameView, dx: int, dy: int, turn: int) -> bool {
    !g.game_over && match g.current_piece {
        Some(p) => !hits(
            g.board,
            shape_of(p.piece_type, ((p.rotation % 4 + turn) % 4) as u8),
            p.x + dx,
            p.y + dy,
        ),
        None => false,
    }
}

/// The game with its active piece placed as `can_place` describes.
pub open spec fn placed(g: GameView, dx: int, dy: int, turn: int) -> GameView {
    match g.current_piece {
        Some(p) => GameView {
            current_piece: Some(
                Tetromino {
                    piece_type: p.piece_type,
                    x: (p.x + dx) as i32,
                    y: (p.y + dy) as i32,
                    rotation: if turn == 0 {
                        p.rotation
                    } else {
                        ((p.rotation % 4 + turn) % 4) as u8
                    },
                },
            ),
            ..g
        },
        None => g,
    }
}

/// A sideways step or a quarter turn: taken where the piece can stand there,
/// and otherwise nothing.
pub open spec fn shifted(g: GameView, dx: int, turn: int) -> GameView {
    if can_place(g, dx, 0, turn) {
        placed(g, dx, 0, turn)
    } else {
        g
    }
}

/// One row down: nothing once the game is over; else the move where the
/// piece can stand there, and the lock otherwise.
pub open spec fn soft_dropped(g: GameView) -> GameView {
    if g.game_over {
        g
    } else if can_place(g, 0, 1, 0) {
        placed(g, 0, 1, 0)
    } else {
        locked(g)
    }
}

/// Reset: an empty board, no score, the game not over, and a spawn from the
/// randomizer as it stands.
pub open spec fn fresh(g: GameView) -> GameView {
    spawn(
        GameView { board: blank_grid(), current_piece: None, score: 0, game_over: false, ..g },
    )
}

/// The row at which a matrix comes to rest when it falls from row `y` in
/// column `x`: the first row, from `y` on, below which it hits. From row 19
/// on the row below is off the board.
pub open spec fn landing_row(g: Grid, m: Shape, x: int, y: int) -> int
    decreases BOARD_HEIGHT - y,
{
    if y >= BOARD_HEIGHT - 1 || hits(g, m, x, y + 1) {
        y
    } else {
        landing_row(g, m, x, y + 1)
    }
}

/// Hard drop: nothing once the game is over; else the active piece falls to
/// its landing row and is locked there.
pub open spec fn hard_dropped(g: GameView) -> GameView {
    match g.current_piece {
        Some(p) if !g.game_over => locked(
            GameView {
                current_piece: Some(
                    Tetromino {
                        piece_type: p.piece_type,
                        x: p.x,
                        y: landing_row(g.board, p.shape(), p.x as int, p.y as int) as i32,
                        rotation: p.rotation,
                    },
                ),
                ..g
            },
        ),
        _ => g,
    }
}

/// Value mixed into every seed.
pub const SEED_SALT: u64 = 0x2026;

/// The seed of a new game's generator, from a clock reading and a value
/// that tells instances apart.
pub open spec fn mixed_seed(seed_time: u64, addr_mix: u64) -> u64 {
    seed_time ^ addr_mix ^ SEED_SALT
}

/// A new game: an empty board, no active piece yet, and the first kind drawn
/// from a bag that is shuffled by a generator seeded with `seed`.
pub open spec fn started(seed: u64) -> GameView {
    let bag = BagView { order: initial_order(), cursor: BAG_SIZE as int, rng: seeded_state(seed) };
    GameView {
        board: blank_grid(),
        current_piece: None,
        score: 0,
        game_over: false,
        next_piece_type: draw(bag).0,
        bag: draw(bag).1,
    }
}

/// Rows that the active piece has above the floor; nothing where there is no
/// piece or it stands below the board.
spec fn fall_room(g: GameView) -> int {
    match g.current_piece {
        Some(p) => if p.y < BOARD_HEIGHT {
            BOARD_HEIGHT - p.y
        } else {
            0
        },
        None => 0,
    }
}

/// A piece that can stand where `can_place` asks has its window anchored
/// near the board.
pub proof fn lemma_can_place_near(g: GameView, dx: int, dy: int, turn: int)
    requires
        can_place(g, dx, dy, turn),
    ensures
        -3 <= g.current_piece->0.x + dx < BOARD_WIDTH,
        -3 <= g.current_piece->0.y + dy < BOARD_HEIGHT,
{
    let p = g.current_piece->0;
    let rotation = ((p.rotation % 4 + turn) % 4) as u8;
    lemma_shape_has_cell(p.piece_type, rotation);
    if !(-3 <= p.x + dx < BOARD_WIDTH && -3 <= p.y + dy < BOARD_HEIGHT) {
        lemma_off_board_hits(g.board, shape_of(p.piece_type, rotation), p.x + dx, p.y + dy);
    }
}

/// A piece that can fall one row lands where it lands from the row below; one
/// that cannot has landed.
proof fn lemma_hard_drop_step(g: GameView)
    requires
        g.current_piece is Some,
        !g.game_over,
    ensures
        can_place(g, 0, 1, 0) ==> hard_dropped(placed(g, 0, 1, 0)) == hard_dropped(g) && fall_room(
            placed(g, 0, 1, 0),
        ) < fall_room(g),
        !can_place(g, 0, 1, 0) ==> hard_dropped(g) == locked(g),
{
    let p = g.current_piece->0;
    assert(shape_of(p.piece_type, ((p.rotation % 4 + 0) % 4) as u8) == p.shape());
    if can_place(g, 0, 1, 0) {
        lemma_can_place_near(g, 0, 1, 0);
    } else {
        assert(landing_row(g.board, p.shape(), p.x as int, p.y as int) == p.y);
        assert(g =~= (GameView { current_piece: Some(p), ..g }));
    }
}

impl TetrisGame {
    /// A new game. The caller reads the clock and supplies a value that
    /// differs between instances; the two are mixed into the seed.
    pub fn new(seed_time: u64, addr_mix: u64) -> (game: Self)
        ensures
            game@ == started(mixed_seed(seed_time, addr_mix)),
            well_formed(game@),
    {
        proof {
            lemma_started_well_formed(mixed_seed(seed_time, addr_mix));
        }
        let prng = PRNG::new(seed_time ^ addr_mix ^ SEED_SALT);
        let mut game = Self {
            board: [[false; BOARD_WIDTH]; BOARD_HEIGHT],
            current_piece: None,
            score: 0,
            game_over: false,
            next_piece_type: TetrominoType::I,
            bag: [
                TetrominoType::I,
                TetrominoType::O,
                TetrominoType::T,
                TetrominoType::S,
                TetrominoType::Z,
                TetrominoType::J,
                TetrominoType::L,
            ],
            bag_idx: BAG_SIZE,
            prng,
        };
        proof {
            assert(game.bag@ =~= initial_order());
            assert(game@.board =~~= blank_grid());
        }
        let first = game.next_piece_from_bag();
        game.next_piece_type = first;
        proof {
            assert(game@ =~= started(mixed_seed(seed_time, addr_mix)));
        }
        game
    }

    pub fn reset(&mut self)
        ensures
            final(self)@ == fresh(old(self)@),
            is_fresh(final(self)@),
            bag_ok(old(self)@.bag) ==> well_formed(final(self)@),
    {
        proof {
            lemma_reset_fresh(self@);
        }
        self.board = [[false; BOARD_WIDTH]; BOARD_HEIGHT];
        self.current_piece = None;
        self.score = 0;
        self.game_over = false;
        proof {
            assert(self@.board =~~= blank_grid());
            assert(self@ =~= (GameView {
                board: blank_grid(),
                current_piece: None,
                score: 0,
                game_over: false,
                ..old(self)@
            }));
        }
        self.spawn_piece();
    }

    /// Brings the next kind into play, or ends the game where it has no
    /// room; a game that has ended this way has no active piece.
    pub fn spawn_piece(&mut self)
        ensures
            final(self)@ == spawn(old(self)@),
            !old(self).game_over && final(self).game_over ==> final(self).current_piece is None,
            well_formed(old(self)@) ==> well_formed(final(self)@),
    {
        proof {
            if well_formed(self@) {
                lemma_spawn_well_formed(self@);
            }
        }
        if self.game_over {
            return ;
        }
        let new_piece = Tetromino::new(self.next_piece_type);
        if self.check_collision(&new_piece) {
            self.current_piece = None;
            self.game_over = true;
            proof {
                assert(self@ =~= spawn(old(self)@));
            }
            return ;
        }
        self.current_piece = Some(new_piece);
        let following = self.next_piece_from_bag();
        self.next_piece_type = following;
        proof {
            assert(self@ =~= spawn(old(self)@));
        }
    }

    pub fn move_left(&mut self) -> (moved: bool)
        ensures
            moved == can_place(old(self)@, -1, 0, 0),
            final(self)@ == shifted(old(self)@, -1, 0),
            well_formed(old(self)@) ==> well_formed(final(self)@),
    {
        proof {
            if well_formed(self@) {
                lemma_shifted_well_formed(self@, -1, 0);
            }
        }
        if self.game_over {
            return false;
        }
        if let Some(piece) = self.current_piece {
            if let Some(x) = piece.x.checked_sub(1) {
                let target = Tetromino {
                    piece_type: piece.piece_type,
                    x,
                    y: piece.y,
                    rotation: piece.rotation,
                };
                assert(target.shape() == shape_of(
                    piece.piece_type,
                    ((piece.rotation % 4 + 0) % 4) as u8,
                ));
                if !self.check_collision(&target) {
                    self.current_piece = Some(target);
                    proof {
                        assert(self@ =~= shifted(old(self)@, -1, 0));
                    }
                    return true;
                }
            } else {
                proof {
                    if can_place(self@, -1, 0, 0) {
                        lemma_can_place_near(self@, -1, 0, 0);
                    }
                }
            }
        }
        false
    }

    pub fn move_right(&mut self) -> (moved: bool)
        ensures
            moved == can_place(old(self)@, 1, 0, 0),
            final(self)@ == shifted(old(self)@, 1, 0),
            well_formed(old(self)@) ==> well_formed(final(self)@),
    {
        proof {
            if well_formed(self@) {
                lemma_shifted_well_formed(self@, 1, 0);
            }
        }
        if self.game_over {
            return false;
        }
        if let Some(piece) = self.current_piece {
            if let Some(x) = piece.x.checked_add(1) {
                let target = Tetromino {
                    piece_type: piece.piece_type,
                    x,
                    y: piece.y,
                    rotation: piece.rotation,
                };
                assert(target.shape() == shape_of(
                    piece.piece_type,
                    ((piece.rotation % 4 + 0) % 4) as u8,
                ));
                if !self.check_collision(&target) {
                    self.current_piece = Some(target);
                    proof {
                        assert(self@ =~= shifted(old(self)@, 1, 0));
                    }
                    return true;
                }
            } else {
                proof {
                    if can_place(self@, 1, 0, 0) {
                        lemma_can_place_near(self@, 1, 0, 0);
                    }
                }
            }
        }
        false
    }

    /// One row down, or the lock where the piece cannot fall. Tells whether
    /// the piece moved.
    pub fn move_down(&mut self) -> (moved: bool)
        ensures
            moved == can_place(old(self)@, 0, 1, 0),
            final(self)@ == soft_dropped(old(self)@),
            well_formed(old(self)@) ==> well_formed(final(self)@),
            final(self).score >= old(self).score,
    {
        proof {
            if well_formed(self@) {
                lemma_soft_dropped_well_formed(self@);
            }
            lemma_score_never_falls(self@, 0, 0);
        }
        if self.game_over {
            return false;
        }
        if let Some(piece) = self.current_piece {
            if let Some(y) = piece.y.checked_add(1) {
                let target = Tetromino {
                    piece_type: piece.piece_type,
                    x: piece.x,
                    y,
                    rotation: piece.rotation,
                };
                assert(target.shape() == shape_of(
                    piece.piece_type,
                    ((piece.rotation % 4 + 0) % 4) as u8,
                ));
                if !self.check_collision(&target) {
                    self.current_piece = Some(target);
                    proof {
                        assert(self@ =~= soft_dropped(old(self)@));
                    }
                    return true;
                }
            } else {
                proof {
                    if can_place(self@, 0, 1, 0) {
                        lemma_can_place_near(self@, 0, 1, 0);
                    }
                }
            }
            self.lock_piece();
        }
        false
    }

    /// A quarter turn, where the turned piece can stand.
    pub fn rotate(&mut self) -> (turned: bool)
        ensures
            turned == can_place(old(self)@, 0, 0, 1),
            final(self)@ == shifted(old(self)@, 0, 1),
            well_formed(old(self)@) ==> well_formed(final(self)@),
    {
        proof {
            if well_formed(self@) {
                lemma_shifted_well_formed(self@, 0, 1);
            }
        }
        if self.game_over {
            return false;
        }
        if let Some(piece) = self.current_piece {
            let target = Tetromino {
                piece_type: piece.piece_type,
                x: piece.x,
                y: piece.y,
                rotation: (piece.rotation % 4 + 1) % 4,
            };
            if !self.check_collision(&target) {
                self.current_piece = Some(target);
                proof {
                    assert(self@ =~= shifted(old(self)@, 0, 1));
                }
                return true;
            }
        }
        false
    }

    /// Drops the piece as far as it falls and locks it there.
    pub fn hard_drop(&mut self)
        ensures
            final(self)@ == hard_dropped(old(self)@),
            well_formed(old(self)@) ==> well_formed(final(self)@),
            final(self).score >= old(self).score,
    {
        proof {
            if well_formed(self@) {
                lemma_hard_dropped_well_formed(self@);
            }
            lemma_score_never_falls(self@, 0, 0);
        }
        loop
            invariant_except_break
                hard_dropped(self@) == hard_dropped(old(self)@),
            ensures
                self@ == hard_dropped(old(self)@),
            decreases fall_room(self@),
        {
            proof {
                if self.current_piece is Some && !self.game_over {
                    lemma_hard_drop_step(self@);
                }
            }
            let moved = self.move_down();
            if !moved {
                break ;
            }
        }
    }

    /// Stamps the active piece onto the board, clears the full lines and
    /// spawns the next piece.
    pub fn lock_piece(&mut self)
        ensures
            final(self)@ == locked(old(self)@),
            well_formed(old(self)@) ==> well_formed(final(self)@),
            final(self).score >= old(self).score,
    {
        proof {
            if well_formed(self@) {
                lemma_locked_well_formed(self@);
            }
            lemma_score_never_falls(self@, 0, 0);
        }
        if let Some(piece) = self.current_piece {
            self.current_piece = None;
            stamp(&mut self.board, &piece);
            proof {
                assert(self@ =~= (GameView {
                    board: stamped(old(self)@.board, piece.shape(), piece.x as int, piece.y as int),
                    current_piece: None,
                    ..old(self)@
                }));
            }
            self.clear_lines();
            self.spawn_piece();
        }
    }
}

} // verus!
