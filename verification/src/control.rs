//! The control surface: commands by key and by numeric code, a read-only
//! snapshot for diagnostics, and the frame as a reader receives it.

use crate::board::Board;
use crate::game::fresh;
use crate::game::hard_dropped;
use crate::game::shifted;
use crate::game::soft_dropped;
use crate::game::GameView;
use crate::game::TetrisGame;
use crate::laws::lemma_frame_len;
use crate::piece::Tetromino;
use crate::render::frame;
use crate::shape::TetrominoType;
use vstd::prelude::*;

verus! {

/// Size of the buffer into which a frame is rendered for a reader.
pub const RENDER_BUFFER_SIZE: usize = 4096;

pub const TETRIS_IOCTL_LEFT: u32 = 0x8000;

pub const TETRIS_IOCTL_RIGHT: u32 = 0x8001;

pub const TETRIS_IOCTL_DOWN: u32 = 0x8002;

pub const TETRIS_IOCTL_ROTATE: u32 = 0x8003;

pub const TETRIS_IOCTL_DROP: u32 = 0x8004;

pub const TETRIS_IOCTL_RESET: u32 = 0x8005;

/// What a caller can ask of a game.
#[derive(Debug, Clone, Copy, PartialEq, Eq, Structural)]
pub enum Command {
    Left,
    Right,
    Down,
    Rotate,
    Drop,
    Reset,
}

/// Why a request was turned down.
#[derive(Debug, Clone, Copy, PartialEq, Eq, Structural)]
pub enum ControlError {
    /// The numeric code names no command.
    InvalidArgument,
}

/// The command that a key stands for: `a`, `d`, `s`, `w` and `r` in either
/// case, and the space bar.
pub open spec fn key_command(key: u8) -> Option<Command> {
    if key == 0x61 || key == 0x41 {
        Some(Command::Left)
    } else if key == 0x64 || key == 0x44 {
        Some(Command::Right)
    } else if key == 0x73 || key == 0x53 {
        Some(Command::Down)
    } else if key == 0x77 || key == 0x57 {
        Some(Command::Rotate)
    } else if key == 0x20 {
        Some(Command::Drop)
    } else if key == 0x72 || key == 0x52 {
        Some(Command::Reset)
    } else {
        None
    }
}

/// The command that a numeric code stands for.
pub open spec fn code_command(code: u32) -> Option<Command> {
    if code == TETRIS_IOCTL_LEFT {
        Some(Command::Left)
    } else if code == TETRIS_IOCTL_RIGHT {
        Some(Command::Right)
    } else if code == TETRIS_IOCTL_DOWN {
        Some(Command::Down)
    } else if code == TETRIS_IOCTL_ROTATE {
        Some(Command::Rotate)
    } else if code == TETRIS_IOCTL_DROP {
        Some(Command::Drop)
    } else if code == TETRIS_IOCTL_RESET {
        Some(Command::Reset)
    } else {
        None
    }
}

/// The game after a command.
pub open spec fn applied(g: GameView, command: Command) -> GameView {
    match command {
        Command::Left => shifted(g, -1, 0),
        Command::Right => shifted(g, 1, 0),
        Command::Down => soft_dropped(g),
        Command::Rotate => shifted(g, 0, 1),
        Command::Drop => hard_dropped(g),
        Command::Reset => fresh(g),
    }
}

/// The game after a key: the command's effect, or nothing where the key
/// stands for no command.
pub open spec fn after_key(g: GameView, key: u8) -> GameView {
    match key_command(key) {
        Some(command) => applied(g, command),
        None => g,
    }
}

/// The fields of a game that diagnostics may read.
#[derive(Debug, Clone, Copy)]
pub struct Snapshot {
    pub score: u32,
    pub game_over: bool,
    pub next_piece_type: TetrominoType,
    pub current_piece: Option<Tetromino>,
    pub board: Board,
}

impl Command {
    pub fn from_key(key: u8) -> (command: Option<Command>)
        ensures
            command == key_command(key),
    {
        match key {
            0x61 | 0x41 => Some(Command::Left),
            0x64 | 0x44 => Some(Command::Right),
            0x73 | 0x53 => Some(Command::Down),
            0x77 | 0x57 => Some(Command::Rotate),
            0x20 => Some(Command::Drop),
            0x72 | 0x52 => Some(Command::Reset),
            _ => None,
        }
    }

    pub fn from_code(code: u32) -> (command: Result<Command, ControlError>)
        ensures
            match code_command(code) {
                Some(c) => command == Ok::<Command, ControlError>(c),
                None => command == Err::<Command, ControlError>(ControlError::InvalidArgument),
            },
    {
        match code {
            TETRIS_IOCTL_LEFT => Ok(Command::Left),
            TETRIS_IOCTL_RIGHT => Ok(Command::Right),
            TETRIS_IOCTL_DOWN => Ok(Command::Down),
            TETRIS_IOCTL_ROTATE => Ok(Command::Rotate),
            TETRIS_IOCTL_DROP => Ok(Command::Drop),
            TETRIS_IOCTL_RESET => Ok(Command::Reset),
            _ => Err(ControlError::InvalidArgument),
        }
    }
}

impl TetrisGame {
    pub fn apply(&mut self, command: Command)
        ensures
            final(self)@ == applied(old(self)@, command),
    {
        match command {
            Command::Left => {
                self.move_left();
            },
            Command::Right => {
                self.move_right();
            },
            Command::Down => {
                self.move_down();
            },
            Command::Rotate => {
                self.rotate();
            },
            Command::Drop => {
                self.hard_drop();
            },
            Command::Reset => {
                self.reset();
            },
        }
    }

    /// Takes one key. A key that stands for no command is ignored.
    pub fn handle_key(&mut self, key: u8)
        ensures
            final(self)@ == after_key(old(self)@, key),
    {
        if let Some(command) = Command::from_key(key) {
            self.apply(command);
        }
    }

    /// Takes one numeric command code. A code that names no command is an
    /// invalid argument and leaves the game as it is.
    pub fn handle_ioctl(&mut self, cmd: u32) -> (outcome: Result<isize, ControlError>)
        ensures
            match code_command(cmd) {
                Some(command) => outcome == Ok::<isize, ControlError>(0) && final(self)@ == applied(
                    old(self)@,
                    command,
                ),
                None => outcome == Err::<isize, ControlError>(ControlError::InvalidArgument)
                    && *final(self) == *old(self),
            },
    {
        match Command::from_code(cmd) {
            Ok(command) => {
                self.apply(command);
                Ok(0)
            },
            Err(e) => Err(e),
        }
    }

    /// The fields that diagnostics may read, copied out.
    pub fn snapshot(&self) -> (shot: Snapshot)
        ensures
            shot.score == self.score,
            shot.game_over == self.game_over,
            shot.next_piece_type == self.next_piece_type,
            shot.current_piece == self.current_piece,
            shot.board == self.board,
    {
        Snapshot {
            score: self.score,
            game_over: self.game_over,
            next_piece_type: self.next_piece_type,
            current_piece: self.current_piece,
            board: self.board,
        }
    }

    /// The frame as a reader with room for `limit` bytes receives it: the
    /// whole frame, or its first `limit` bytes.
    pub fn read_frame(&self, limit: usize) -> (bytes: Vec<u8>)
        ensures
            bytes@ == frame(self@).take(
                if limit < frame(self@).len() {
                    limit as int
                } else {
                    frame(self@).len() as int
                },
            ),
    {
        let mut buffer: Vec<u8> = vec![0u8; RENDER_BUFFER_SIZE];
        let len = self.render_to_buffer(buffer.as_mut_slice());
        let bytes_to_copy = if len < limit {
            len
        } else {
            limit
        };
        proof {
            lemma_frame_len(self@);
        }
        buffer.truncate(bytes_to_copy);
        proof {
            assert(buffer@ =~= frame(self@).take(bytes_to_copy as int));
        }
        buffer
    }
}

} // verus!
