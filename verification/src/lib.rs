//! A Tetris engine: tetromino shapes and their rotations, a seven-bag
//! randomizer, collision and line clearing on a fixed board, the game
//! controller, and a bounded text renderer.

pub mod bag;
pub mod board;
pub mod control;
pub mod game;
pub mod laws;
pub mod piece;
pub mod prng;
pub mod render;
pub mod shape;
