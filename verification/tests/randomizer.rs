use tetris::game::TetrisGame;
use tetris::prng::PRNG;
use tetris::shape::TetrominoType;

fn letters(kinds: &[TetrominoType]) -> String {
    kinds
        .iter()
        .map(|k| match k {
            TetrominoType::I => 'I',
            TetrominoType::O => 'O',
            TetrominoType::T => 'T',
            TetrominoType::S => 'S',
            TetrominoType::Z => 'Z',
            TetrominoType::J => 'J',
            TetrominoType::L => 'L',
        })
        .collect()
}

fn is_permutation(kinds: &[TetrominoType]) -> bool {
    let mut sorted: Vec<char> = letters(kinds).chars().collect();
    sorted.sort();
    sorted == vec!['I', 'J', 'L', 'O', 'S', 'T', 'Z']
}

#[test]
fn seed_is_shifted_by_one() {
    assert_eq!(PRNG::new(0).state, 1);
    assert_eq!(PRNG::new(41).state, 42);
    assert_eq!(PRNG::new(u64::MAX).state, 0);
}

#[test]
fn next_is_one_congruential_step() {
    let mut rng = PRNG { state: 1 };
    assert_eq!(rng.next(), 7806831264735756412);
    assert_eq!(rng.state, 7806831264735756412);
    assert_eq!(rng.next(), 9396908728118811419);
    let mut zero = PRNG { state: 0 };
    assert_eq!(zero.next(), 1442695040888963407);
}

#[test]
fn next_range_reduces_modulo_max() {
    let mut rng = PRNG { state: 1 };
    assert_eq!(rng.next_range(7), 5);
    assert_eq!(rng.state, 7806831264735756412);
    let mut rng = PRNG { state: 1 };
    assert_eq!(rng.next_range(1), 0);
    let mut rng = PRNG { state: 1 };
    assert_eq!(rng.next_range(u32::MAX), (7806831264735756412u64 % (u32::MAX as u64)) as u32);
}

#[test]
fn shuffle_follows_the_generator() {
    let mut game = TetrisGame::new(1, 2);
    game.bag = [
        TetrominoType::I,
        TetrominoType::O,
        TetrominoType::T,
        TetrominoType::S,
        TetrominoType::Z,
        TetrominoType::J,
        TetrominoType::L,
    ];
    game.prng = PRNG { state: 1 };
    game.bag_idx = 3;
    game.shuffle_bag();
    assert_eq!(letters(&game.bag), "ZSTOILJ");
    assert_eq!(game.prng.state, 9232803539723513983);
    assert_eq!(game.bag_idx, 3);
}

#[test]
fn new_game_opens_a_shuffled_bag() {
    let game = TetrisGame::new(1, 2);
    assert_eq!(letters(&game.bag), "OLITJZS");
    assert_eq!(game.prng.state, 16490184595448022012);
    assert_eq!(game.bag_idx, 1);
    assert_eq!(game.next_piece_type, TetrominoType::O);
    let game = TetrisGame::new(0, 0);
    assert_eq!(letters(&game.bag), "TZISLJO");
    let game = TetrisGame::new(12345, 67890);
    assert_eq!(letters(&game.bag), "OSJTLIZ");
    assert_eq!(game.prng.state, 10438849068995692740);
}

#[test]
fn draws_walk_the_bag_and_reshuffle_at_its_end() {
    let mut game = TetrisGame::new(1, 2);
    let mut served = vec![game.next_piece_type];
    for _ in 0..6 {
        served.push(game.next_piece_from_bag());
    }
    assert_eq!(letters(&served), "OLITJZS");
    assert_eq!(game.bag_idx, 7);
    assert_eq!(game.prng.state, 16490184595448022012);
    let mut second = Vec::new();
    for _ in 0..7 {
        second.push(game.next_piece_from_bag());
    }
    assert_eq!(letters(&second), "LSZOTJI");
    assert_eq!(game.prng.state, 2037181161054613538);
}

#[test]
fn seven_draws_from_a_boundary_serve_each_kind_once() {
    for seed in 0..200u64 {
        let mut game = TetrisGame::new(seed, seed.wrapping_mul(977));
        game.bag_idx = 7;
        for _ in 0..5 {
            let mut served = Vec::new();
            for _ in 0..7 {
                served.push(game.next_piece_from_bag());
            }
            assert!(is_permutation(&served), "{}", letters(&served));
        }
    }
}

#[test]
fn seven_draws_from_cursor_zero_serve_the_bag_in_order() {
    let mut game = TetrisGame::new(5, 6);
    game.bag_idx = 0;
    let bag = game.bag;
    let state = game.prng.state;
    let mut served = Vec::new();
    for _ in 0..7 {
        served.push(game.next_piece_from_bag());
    }
    assert_eq!(served, bag.to_vec());
    assert_eq!(game.prng.state, state);
}

#[test]
fn a_cursor_past_the_end_reshuffles() {
    let mut game = TetrisGame::new(1, 2);
    game.bag_idx = 1000;
    let kind = game.next_piece_from_bag();
    assert_eq!(game.bag_idx, 1);
    assert_eq!(kind, game.bag[0]);
    assert!(is_permutation(&game.bag));
}

#[test]
fn shuffle_keeps_each_kind_once() {
    let mut game = TetrisGame::new(99, 7);
    for _ in 0..100 {
        game.shuffle_bag();
        assert!(is_permutation(&game.bag));
    }
}
