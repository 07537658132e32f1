use tetris::control::Command;
use tetris::control::ControlError;
use tetris::game::TetrisGame;
use tetris::piece::Tetromino;
use tetris::shape::TetrominoType;

fn playing() -> TetrisGame {
    let mut game = TetrisGame::new(1, 2);
    game.spawn_piece();
    game
}

fn same(a: &TetrisGame, b: &TetrisGame) -> bool {
    a.board == b.board
        && a.current_piece == b.current_piece
        && a.score == b.score
        && a.game_over == b.game_over
        && a.next_piece_type == b.next_piece_type
        && a.bag == b.bag
        && a.bag_idx == b.bag_idx
        && a.prng.state == b.prng.state
}

#[test]
fn keys_map_to_commands_in_either_case() {
    assert_eq!(Command::from_key(b'a'), Some(Command::Left));
    assert_eq!(Command::from_key(b'A'), Some(Command::Left));
    assert_eq!(Command::from_key(b'd'), Some(Command::Right));
    assert_eq!(Command::from_key(b'D'), Some(Command::Right));
    assert_eq!(Command::from_key(b's'), Some(Command::Down));
    assert_eq!(Command::from_key(b'S'), Some(Command::Down));
    assert_eq!(Command::from_key(b'w'), Some(Command::Rotate));
    assert_eq!(Command::from_key(b'W'), Some(Command::Rotate));
    assert_eq!(Command::from_key(b' '), Some(Command::Drop));
    assert_eq!(Command::from_key(b'r'), Some(Command::Reset));
    assert_eq!(Command::from_key(b'R'), Some(Command::Reset));
}

#[test]
fn other_keys_map_to_nothing() {
    let known = b"aAdDsSwW rR";
    for key in 0..=255u8 {
        if !known.contains(&key) {
            assert_eq!(Command::from_key(key), None);
        }
    }
}

#[test]
fn codes_map_to_commands() {
    assert_eq!(Command::from_code(0x8000), Ok(Command::Left));
    assert_eq!(Command::from_code(0x8001), Ok(Command::Right));
    assert_eq!(Command::from_code(0x8002), Ok(Command::Down));
    assert_eq!(Command::from_code(0x8003), Ok(Command::Rotate));
    assert_eq!(Command::from_code(0x8004), Ok(Command::Drop));
    assert_eq!(Command::from_code(0x8005), Ok(Command::Reset));
}

#[test]
fn other_codes_are_invalid_arguments() {
    for code in [0u32, 1, 0x7FFF, 0x8006, 0x61, u32::MAX] {
        assert_eq!(Command::from_code(code), Err(ControlError::InvalidArgument));
    }
}

#[test]
fn apply_runs_the_operation() {
    let at = |x: i32, y: i32, rotation: u8| {
        Some(Tetromino { piece_type: TetrominoType::O, x, y, rotation })
    };
    let mut game = playing();
    game.apply(Command::Left);
    assert_eq!(game.current_piece, at(2, 0, 0));
    game.apply(Command::Right);
    game.apply(Command::Right);
    assert_eq!(game.current_piece, at(4, 0, 0));
    game.apply(Command::Down);
    assert_eq!(game.current_piece, at(4, 1, 0));
    game.apply(Command::Rotate);
    assert_eq!(game.current_piece, at(4, 1, 1));
    game.apply(Command::Drop);
    assert!(game.board[19][5] && game.board[19][6] && game.board[18][5] && game.board[18][6]);
    game.apply(Command::Reset);
    assert_eq!(game.board, [[false; 10]; 20]);
    assert_eq!(game.score, 0);
    assert!(game.current_piece.is_some());
}

#[test]
fn handle_key_acts_like_the_operation() {
    for (key, command) in [
        (b'a', Command::Left),
        (b'D', Command::Right),
        (b's', Command::Down),
        (b'W', Command::Rotate),
        (b' ', Command::Drop),
        (b'r', Command::Reset),
    ] {
        let mut by_key = playing();
        let mut by_command = playing();
        by_key.handle_key(key);
        by_command.apply(command);
        assert!(same(&by_key, &by_command));
    }
}

#[test]
fn handle_key_ignores_unknown_keys() {
    let mut game = playing();
    let before = game.clone();
    for key in [b'x', b'\n', 0u8, 255u8, b'q'] {
        game.handle_key(key);
        assert!(same(&game, &before));
    }
}

#[test]
fn handle_ioctl_acts_like_the_operation() {
    for (code, command) in [
        (0x8000u32, Command::Left),
        (0x8001, Command::Right),
        (0x8002, Command::Down),
        (0x8003, Command::Rotate),
        (0x8004, Command::Drop),
        (0x8005, Command::Reset),
    ] {
        let mut by_code = playing();
        let mut by_command = playing();
        assert_eq!(by_code.handle_ioctl(code), Ok(0));
        by_command.apply(command);
        assert!(same(&by_code, &by_command));
    }
}

#[test]
fn handle_ioctl_rejects_unknown_codes() {
    let mut game = playing();
    let before = game.clone();
    assert_eq!(game.handle_ioctl(0x8006), Err(ControlError::InvalidArgument));
    assert_eq!(game.handle_ioctl(0), Err(ControlError::InvalidArgument));
    assert_eq!(game.handle_ioctl(b'a' as u32), Err(ControlError::InvalidArgument));
    assert!(same(&game, &before));
}

#[test]
fn commands_in_a_game_that_is_over_only_reset() {
    let mut game = playing();
    game.game_over = true;
    let before = game.clone();
    for key in [b'a', b'd', b's', b'w', b' '] {
        game.handle_key(key);
        assert!(same(&game, &before));
    }
    for code in [0x8000u32, 0x8001, 0x8002, 0x8003, 0x8004] {
        assert_eq!(game.handle_ioctl(code), Ok(0));
        assert!(same(&game, &before));
    }
    assert_eq!(game.handle_ioctl(0x8005), Ok(0));
    assert!(!game.game_over);
    assert_eq!(game.board, [[false; 10]; 20]);
    assert!(game.current_piece.is_some());
}

#[test]
fn snapshot_copies_the_fields() {
    let mut game = playing();
    game.board[7][3] = true;
    game.score = 900;
    let shot = game.snapshot();
    assert_eq!(shot.score, 900);
    assert!(!shot.game_over);
    assert_eq!(shot.next_piece_type, TetrominoType::L);
    assert_eq!(shot.current_piece, game.current_piece);
    assert_eq!(shot.board, game.board);
    game.game_over = true;
    game.current_piece = None;
    let shot = game.snapshot();
    assert!(shot.game_over);
    assert_eq!(shot.current_piece, None);
}

#[test]
fn read_frame_hands_out_up_to_the_limit() {
    let game = playing();
    let mut buffer = vec![0u8; 4096];
    let len = game.render_to_buffer(&mut buffer);
    assert_eq!(len, 699);
    assert_eq!(game.read_frame(4096), buffer[..len].to_vec());
    assert_eq!(game.read_frame(usize::MAX), buffer[..len].to_vec());
    assert_eq!(game.read_frame(699), buffer[..len].to_vec());
    assert_eq!(game.read_frame(698), buffer[..698].to_vec());
    assert_eq!(game.read_frame(10), buffer[..10].to_vec());
    assert_eq!(game.read_frame(0), Vec::<u8>::new());
}
