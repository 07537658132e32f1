use tetris::game::TetrisGame;
use tetris::piece::Tetromino;
use tetris::shape::TetrominoType;

const KINDS: [TetrominoType; 7] = [
    TetrominoType::I,
    TetrominoType::O,
    TetrominoType::T,
    TetrominoType::S,
    TetrominoType::Z,
    TetrominoType::J,
    TetrominoType::L,
];

fn at(kind: TetrominoType, x: i32, y: i32, rotation: u8) -> Tetromino {
    Tetromino { piece_type: kind, x, y, rotation }
}

fn row(cells: &str) -> [bool; 10] {
    let mut r = [false; 10];
    for (c, ch) in cells.chars().enumerate() {
        r[c] = ch == '#';
    }
    r
}

fn filled(board: &[[bool; 10]; 20]) -> usize {
    board.iter().flatten().filter(|cell| **cell).count()
}

#[test]
fn new_game_has_no_piece_yet() {
    let game = TetrisGame::new(1, 2);
    assert_eq!(game.board, [[false; 10]; 20]);
    assert_eq!(game.current_piece, None);
    assert_eq!(game.score, 0);
    assert!(!game.game_over);
    assert_eq!(game.next_piece_type, TetrominoType::O);
    assert_eq!(game.bag_idx, 1);
}

#[test]
fn seed_mixes_clock_address_and_salt() {
    let a = TetrisGame::new(1, 2);
    let b = TetrisGame::new(3, 0);
    let c = TetrisGame::new(0, 3);
    assert_eq!(a.prng.state, b.prng.state);
    assert_eq!(a.bag, c.bag);
    let d = TetrisGame::new(0x2026, 0);
    let e = TetrisGame::new(0, 0x2026);
    assert_eq!(d.bag, e.bag);
    assert_eq!(d.prng.state, 9232803539723513983);
    assert_eq!(e.prng.state, 9232803539723513983);
    assert_eq!(d.next_piece_type, TetrominoType::Z);
    let f = TetrisGame::new(0, 0);
    assert_ne!(f.prng.state, d.prng.state);
}

#[test]
fn spawn_installs_the_next_kind_and_draws_the_following() {
    let mut game = TetrisGame::new(1, 2);
    game.spawn_piece();
    assert_eq!(game.current_piece, Some(at(TetrominoType::O, 3, 0, 0)));
    assert_eq!(game.next_piece_type, TetrominoType::L);
    assert_eq!(game.bag_idx, 2);
    assert!(!game.game_over);
}

#[test]
fn spawn_does_nothing_once_the_game_is_over() {
    let mut game = TetrisGame::new(1, 2);
    game.game_over = true;
    game.spawn_piece();
    assert_eq!(game.current_piece, None);
    assert_eq!(game.next_piece_type, TetrominoType::O);
    assert_eq!(game.bag_idx, 1);
    assert!(game.game_over);
}

#[test]
fn spawn_onto_a_blocked_top_ends_the_game() {
    for kind in KINDS {
        let mut game = TetrisGame::new(1, 2);
        game.board[0] = [true; 10];
        game.board[1] = [true; 10];
        game.next_piece_type = kind;
        let idx = game.bag_idx;
        game.spawn_piece();
        assert!(game.game_over);
        assert_eq!(game.current_piece, None);
        assert_eq!(game.next_piece_type, kind);
        assert_eq!(game.bag_idx, idx);
    }
}

#[test]
fn spawn_with_a_piece_in_play_onto_a_blocked_top_ends_the_game() {
    for kind in KINDS {
        let mut game = TetrisGame::new(1, 2);
        game.board[0] = [true; 10];
        game.board[1] = [true; 10];
        game.next_piece_type = kind;
        game.current_piece = Some(at(TetrominoType::T, 3, 10, 2));
        let idx = game.bag_idx;
        let state = game.prng.state;
        game.spawn_piece();
        assert!(game.game_over);
        assert_eq!(game.current_piece, None);
        assert_eq!(game.next_piece_type, kind);
        assert_eq!(game.bag_idx, idx);
        assert_eq!(game.prng.state, state);
        assert_eq!(game.score, 0);
    }
}

#[test]
fn spawn_with_a_piece_in_play_and_room_replaces_the_piece() {
    let mut game = TetrisGame::new(1, 2);
    game.current_piece = Some(at(TetrominoType::T, 3, 10, 2));
    game.spawn_piece();
    assert!(!game.game_over);
    assert_eq!(game.current_piece, Some(at(TetrominoType::O, 3, 0, 0)));
    assert_eq!(game.next_piece_type, TetrominoType::L);
}

#[test]
fn moves_in_a_game_that_is_over_do_nothing() {
    let mut game = TetrisGame::new(1, 2);
    game.current_piece = Some(at(TetrominoType::T, 3, 10, 0));
    game.game_over = true;
    game.board[19] = row("#########.");
    let board = game.board;
    let state = game.prng.state;
    assert!(!game.move_left());
    assert!(!game.move_right());
    assert!(!game.rotate());
    assert!(!game.move_down());
    game.hard_drop();
    assert_eq!(game.current_piece, Some(at(TetrominoType::T, 3, 10, 0)));
    assert_eq!(game.board, board);
    assert_eq!(game.score, 0);
    assert!(game.game_over);
    assert_eq!(game.next_piece_type, TetrominoType::O);
    assert_eq!(game.bag_idx, 1);
    assert_eq!(game.prng.state, state);
}

#[test]
fn moves_without_a_piece_do_nothing() {
    let mut game = TetrisGame::new(1, 2);
    let state = game.prng.state;
    assert!(!game.move_left());
    assert!(!game.move_right());
    assert!(!game.move_down());
    assert!(!game.rotate());
    game.hard_drop();
    game.lock_piece();
    assert_eq!(game.current_piece, None);
    assert_eq!(game.board, [[false; 10]; 20]);
    assert_eq!(game.score, 0);
    assert_eq!(game.next_piece_type, TetrominoType::O);
    assert_eq!(game.prng.state, state);
    assert!(!game.game_over);
}

#[test]
fn sideways_moves_stop_at_the_walls() {
    let mut game = TetrisGame::new(1, 2);
    game.current_piece = Some(at(TetrominoType::O, 3, 0, 0));
    let mut steps = 0;
    while game.move_left() {
        steps += 1;
    }
    assert_eq!(steps, 4);
    assert_eq!(game.current_piece, Some(at(TetrominoType::O, -1, 0, 0)));
    assert!(!game.move_left());
    assert_eq!(game.current_piece, Some(at(TetrominoType::O, -1, 0, 0)));
    let mut steps = 0;
    while game.move_right() {
        steps += 1;
    }
    assert_eq!(steps, 8);
    assert_eq!(game.current_piece, Some(at(TetrominoType::O, 7, 0, 0)));
}

#[test]
fn sideways_moves_stop_at_occupied_cells() {
    let mut game = TetrisGame::new(1, 2);
    game.board[1][2] = true;
    game.board[1][9] = true;
    game.current_piece = Some(at(TetrominoType::I, 3, 0, 0));
    assert!(!game.move_left());
    assert_eq!(game.current_piece, Some(at(TetrominoType::I, 3, 0, 0)));
    assert!(game.move_right());
    assert!(game.move_right());
    assert!(!game.move_right());
    assert_eq!(game.current_piece, Some(at(TetrominoType::I, 5, 0, 0)));
}

#[test]
fn moves_at_the_end_of_the_number_range_are_refused() {
    let mut game = TetrisGame::new(1, 2);
    game.current_piece = Some(at(TetrominoType::T, i32::MIN, 0, 0));
    assert!(!game.move_left());
    assert_eq!(game.current_piece, Some(at(TetrominoType::T, i32::MIN, 0, 0)));
    game.current_piece = Some(at(TetrominoType::T, i32::MAX, 0, 0));
    assert!(!game.move_right());
    assert_eq!(game.current_piece, Some(at(TetrominoType::T, i32::MAX, 0, 0)));
}

#[test]
fn rotate_steps_through_the_four_states() {
    let mut game = TetrisGame::new(1, 2);
    game.current_piece = Some(at(TetrominoType::T, 3, 5, 0));
    for want in [1u8, 2, 3, 0, 1] {
        assert!(game.rotate());
        assert_eq!(game.current_piece, Some(at(TetrominoType::T, 3, 5, want)));
    }
}

#[test]
fn rotate_is_refused_where_the_turned_piece_collides() {
    let mut game = TetrisGame::new(1, 2);
    game.current_piece = Some(at(TetrominoType::I, -2, 5, 1));
    assert!(!game.rotate());
    assert_eq!(game.current_piece, Some(at(TetrominoType::I, -2, 5, 1)));
    game.current_piece = Some(at(TetrominoType::I, 3, 5, 0));
    game.board[7][5] = true;
    assert!(!game.rotate());
    assert_eq!(game.current_piece, Some(at(TetrominoType::I, 3, 5, 0)));
}

#[test]
fn rotate_counts_a_large_rotation_modulo_four() {
    let mut game = TetrisGame::new(1, 2);
    game.current_piece = Some(at(TetrominoType::T, 3, 5, 255));
    assert!(game.rotate());
    assert_eq!(game.current_piece, Some(at(TetrominoType::T, 3, 5, 0)));
    game.current_piece = Some(at(TetrominoType::T, 3, 5, 6));
    assert!(game.rotate());
    assert_eq!(game.current_piece, Some(at(TetrominoType::T, 3, 5, 3)));
}

#[test]
fn soft_drop_moves_one_row() {
    let mut game = TetrisGame::new(1, 2);
    game.spawn_piece();
    assert!(game.move_down());
    assert_eq!(game.current_piece, Some(at(TetrominoType::O, 3, 1, 0)));
    assert_eq!(game.board, [[false; 10]; 20]);
}

#[test]
fn soft_drop_locks_where_the_piece_rests() {
    let mut game = TetrisGame::new(1, 2);
    game.spawn_piece();
    let mut moves = 0;
    while game.move_down() {
        moves += 1;
    }
    assert_eq!(moves, 17);
    let mut want = [[false; 10]; 20];
    want[18][4] = true;
    want[18][5] = true;
    want[19][4] = true;
    want[19][5] = true;
    assert_eq!(game.board, want);
    assert_eq!(game.current_piece, Some(at(TetrominoType::L, 3, 0, 0)));
    assert_eq!(game.next_piece_type, TetrominoType::I);
    assert_eq!(game.score, 0);
}

#[test]
fn hard_drop_lands_each_kind_on_the_floor() {
    for kind in KINDS {
        let mut game = TetrisGame::new(1, 2);
        game.current_piece = Some(at(kind, 3, 0, 0));
        let shape = at(kind, 3, 0, 0).get_shape();
        let lowest = if kind == TetrominoType::I { 1 } else { 2 };
        let land = 19 - lowest;
        assert!(!game.check_collision(&at(kind, 3, land, 0)));
        assert!(game.check_collision(&at(kind, 3, land + 1, 0)));
        game.hard_drop();
        let mut want = [[false; 10]; 20];
        for r in 0..4 {
            for c in 0..4 {
                if shape[r][c] {
                    want[(land as usize) + r][3 + c] = true;
                }
            }
        }
        assert_eq!(game.board, want);
        assert_eq!(game.current_piece, Some(at(TetrominoType::O, 3, 0, 0)));
        assert_eq!(game.score, 0);
        assert!(!game.game_over);
    }
}

#[test]
fn hard_drop_rests_on_the_stack() {
    let mut game = TetrisGame::new(1, 2);
    game.board[12][5] = true;
    game.current_piece = Some(at(TetrominoType::O, 3, 0, 0));
    game.hard_drop();
    let mut want = [[false; 10]; 20];
    want[12][5] = true;
    want[10][4] = true;
    want[10][5] = true;
    want[11][4] = true;
    want[11][5] = true;
    assert_eq!(game.board, want);
}

#[test]
fn hard_drop_of_a_piece_that_cannot_fall_locks_it_in_place() {
    let mut game = TetrisGame::new(1, 2);
    game.current_piece = Some(at(TetrominoType::O, 0, 17, 0));
    game.hard_drop();
    assert_eq!(filled(&game.board), 4);
    assert!(game.board[19][1] && game.board[19][2] && game.board[18][1] && game.board[18][2]);
}

#[test]
fn hard_drop_from_far_above_or_below_the_board() {
    let mut game = TetrisGame::new(1, 2);
    game.current_piece = Some(at(TetrominoType::O, 3, -1000, 0));
    game.hard_drop();
    assert_eq!(game.board, [[false; 10]; 20]);
    assert_eq!(game.current_piece, Some(at(TetrominoType::O, 3, 0, 0)));
    let mut game = TetrisGame::new(1, 2);
    game.current_piece = Some(at(TetrominoType::O, 3, i32::MAX, 0));
    game.hard_drop();
    assert_eq!(game.board, [[false; 10]; 20]);
    assert_eq!(game.current_piece, Some(at(TetrominoType::O, 3, 0, 0)));
}

#[test]
fn five_squares_across_the_floor_clear_two_rows() {
    let mut game = TetrisGame::new(1, 2);
    for (n, x) in [-1, 1, 3, 5].iter().enumerate() {
        game.current_piece = Some(at(TetrominoType::O, *x, 0, 0));
        game.hard_drop();
        assert_eq!(game.score, 0);
        assert_eq!(filled(&game.board), 4 * (n + 1));
        for c in 0..10 {
            assert_eq!(game.board[19][c], c < 2 * (n + 1));
            assert_eq!(game.board[18][c], c < 2 * (n + 1));
        }
    }
    game.current_piece = Some(at(TetrominoType::O, 7, 0, 0));
    game.hard_drop();
    assert_eq!(game.score, 300);
    assert_eq!(game.board, [[false; 10]; 20]);
    assert!(!game.game_over);
    assert!(game.current_piece.is_some());
}

#[test]
fn five_squares_in_the_corner_stack_up() {
    let mut game = TetrisGame::new(1, 2);
    for _ in 0..5 {
        game.current_piece = Some(at(TetrominoType::O, 3, 0, 0));
        while game.move_left() {}
        game.hard_drop();
    }
    assert_eq!(game.score, 0);
    let mut want = [[false; 10]; 20];
    for r in 10..20 {
        want[r][0] = true;
        want[r][1] = true;
    }
    assert_eq!(game.board, want);
}

#[test]
fn filling_the_gap_in_the_bottom_row_pays_one_line() {
    let mut game = TetrisGame::new(1, 2);
    game.board[19] = row("####.#####");
    game.score = 250;
    game.current_piece = Some(at(TetrominoType::I, 2, 0, 1));
    game.hard_drop();
    assert_eq!(game.score, 350);
    let mut want = [[false; 10]; 20];
    want[17][4] = true;
    want[18][4] = true;
    want[19][4] = true;
    assert_eq!(game.board, want);
    assert!(!game.game_over);
}

#[test]
fn lock_stamps_clears_and_spawns() {
    let mut game = TetrisGame::new(1, 2);
    game.board[19] = row("######..##");
    game.board[18] = row("######..#.");
    game.current_piece = Some(at(TetrominoType::O, 5, 17, 0));
    game.lock_piece();
    let mut want = [[false; 10]; 20];
    want[19] = row("#########.");
    assert_eq!(game.board, want);
    assert_eq!(game.score, 100);
    assert_eq!(game.current_piece, Some(at(TetrominoType::O, 3, 0, 0)));
    assert_eq!(game.next_piece_type, TetrominoType::L);
}

#[test]
fn lock_skips_cells_off_the_board() {
    let mut game = TetrisGame::new(1, 2);
    game.current_piece = Some(at(TetrominoType::I, 8, 19, 0));
    game.lock_piece();
    let mut want = [[false; 10]; 20];
    assert_eq!(game.board, want);
    game.current_piece = Some(at(TetrominoType::I, 8, 18, 0));
    game.lock_piece();
    want[19][8] = true;
    want[19][9] = true;
    assert_eq!(game.board, want);
}

#[test]
fn lock_that_blocks_the_spawn_ends_the_game() {
    let mut game = TetrisGame::new(1, 2);
    for r in 3..20 {
        game.board[r] = row("####.#####");
    }
    game.current_piece = Some(at(TetrominoType::O, 3, 0, 0));
    assert!(!game.move_down());
    assert!(game.game_over);
    assert_eq!(game.current_piece, None);
    assert_eq!(game.score, 0);
    assert!(!game.move_left());
    assert!(!game.move_down());
    assert!(game.game_over);
}

#[test]
fn reset_gives_a_fresh_game() {
    let mut game = TetrisGame::new(1, 2);
    game.board = [[true; 10]; 20];
    game.score = 12345;
    game.game_over = true;
    game.current_piece = None;
    let state = game.prng.state;
    let next = game.next_piece_type;
    game.reset();
    assert_eq!(game.board, [[false; 10]; 20]);
    assert_eq!(game.score, 0);
    assert!(!game.game_over);
    assert_eq!(game.current_piece, Some(at(next, 3, 0, 0)));
    assert_eq!(game.prng.state, state);
    assert_eq!(game.bag_idx, 2);
}

#[test]
fn reset_twice_gives_the_same_fresh_state() {
    let mut once = TetrisGame::new(7, 9);
    once.spawn_piece();
    once.hard_drop();
    once.hard_drop();
    let mut twice = once.clone();
    once.reset();
    twice.reset();
    twice.reset();
    assert_eq!(once.board, [[false; 10]; 20]);
    assert_eq!(twice.board, once.board);
    assert_eq!(twice.score, 0);
    assert_eq!(once.score, 0);
    assert!(!once.game_over && !twice.game_over);
    assert!(once.current_piece.is_some() && twice.current_piece.is_some());
    let p = twice.current_piece.unwrap();
    assert_eq!((p.x, p.y, p.rotation), (3, 0, 0));
}

#[test]
fn reset_keeps_the_generator_stream() {
    let mut played = TetrisGame::new(4, 4);
    let mut plain = TetrisGame::new(4, 4);
    let mut want = Vec::new();
    for _ in 0..3 {
        want.push(plain.next_piece_from_bag());
    }
    for turn in 0..3 {
        played.reset();
        assert_eq!(played.next_piece_type, want[turn]);
    }
    assert_eq!(played.prng.state, plain.prng.state);
    for _ in 0..20 {
        assert_eq!(played.next_piece_from_bag(), plain.next_piece_from_bag());
    }
}

#[test]
fn score_never_falls_during_play() {
    let mut game = TetrisGame::new(2024, 11);
    game.spawn_piece();
    let mut last = 0;
    let mut step: u32 = 0;
    while !game.game_over && step < 3000 {
        match step % 5 {
            0 => {
                game.move_left();
            }
            1 => {
                game.rotate();
            }
            2 => {
                game.move_right();
            }
            3 => {
                game.move_down();
            }
            _ => {
                game.hard_drop();
            }
        }
        assert!(game.score >= last);
        last = game.score;
        assert!(game.bag_idx <= 7);
        if let Some(p) = game.current_piece {
            assert!(p.rotation < 4);
            assert!(!game.check_collision(&p));
        }
        step += 1;
    }
    if game.game_over {
        assert_eq!(game.current_piece, None);
    }
}
