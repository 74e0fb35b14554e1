//! The rules of the game, as functions on what a game is to an onlooker.
//!
//! Nothing here is executable. `GameView` holds what the rules read and
//! change; each rule says what one event makes of a view. The executable
//! `Game` promises, function by function, to follow them.

use crate::geometry::{shifted_cells, Pos};
use crate::piece::{piece_cells, Piece, MAX_REACH};
use crate::progress::GameProgress;
use crate::rows::{compacted, full_row_count, EMPTY_TILE};
use crate::time::TimeSpan;
use vstd::prelude::*;

verus! {

/// Where a game stands between its start and its end.
#[derive(Debug, PartialEq, Eq, Clone, Copy, Structural)]
pub enum GameState {
    NotStarted,
    Running,
    Paused,
    GameOver,
}

/// The keys that the game listens to, and one for all the others.
#[derive(Debug, PartialEq, Eq, Clone, Copy, Structural)]
pub enum Key {
    Escape,
    KeyP,
    Space,
    ArrowUp,
    ArrowLeft,
    ArrowDown,
    ArrowRight,
    KeyD,
    Other,
}

/// The longest side a game's board may have. With it, every cell that a
/// piece on the board can reach by one step or one turn is a position that
/// `Pos` can hold.
pub const MAX_BOARD_SIDE: u8 = 123;

/// Where the origin of a new piece is put.
pub const SPAWN_X: i8 = 4;

/// Where the origin of a new piece is put.
pub const SPAWN_Y: i8 = 1;

/// A new piece of the given letter: not turned, its origin at the spawn
/// place.
pub open spec fn spawn_piece(letter: char) -> Piece {
    Piece { letter, rotation: 0, origin: Pos { x: SPAWN_X, y: SPAWN_Y } }
}

/// The rows with `tile` written into the cell at `p`.
pub open spec fn stamped(rows: Seq<Seq<char>>, p: (int, int), tile: char) -> Seq<Seq<char>> {
    rows.update(p.1, rows[p.1].update(p.0, tile))
}

/// What a game is to an onlooker.
#[verifier::ext_equal]
pub struct GameView {
    pub width: int,
    pub height: int,
    /// The tiles of the board, row by row from the top.
    pub rows: Seq<Seq<char>>,
    pub state: GameState,
    /// The offsets of every shape, by letter.
    pub shapes: Map<char, Seq<(int, int)>>,
    /// The nanoseconds gathered towards the next fall of the piece.
    pub timer: int,
    /// The falling piece, if there is one.
    pub piece: Option<Piece>,
    /// The letter of the piece that comes next, if it has been drawn.
    pub next: Option<char>,
    pub progress: GameProgress,
}

impl GameView {
    /// The position is on the board.
    pub open spec fn inside(self, p: (int, int)) -> bool {
        0 <= p.0 < self.width && 0 <= p.1 < self.height
    }

    /// The cell at `p` is on the board and holds nothing.
    pub open spec fn free(self, p: (int, int)) -> bool {
        self.inside(p) && self.rows[p.1][p.0] == EMPTY_TILE
    }

    /// One of the four cells is off the board or taken.
    pub open spec fn blocked(self, cells: Seq<(int, int)>) -> bool {
        exists|k: int| 0 <= k < 4 && !self.free(#[trigger] cells[k])
    }

    /// The cells that `piece` covers.
    pub open spec fn cells(self, piece: Piece) -> Seq<(int, int)> {
        piece_cells(self.shapes, piece)
    }

    /// The piece cannot be where it is: one of its cells is off the board
    /// or taken.
    pub open spec fn collides(self, piece: Piece) -> bool {
        self.blocked(self.cells(piece))
    }

    /// The piece lies on the board: its shape is known, its turns can
    /// still be counted, and each of its cells is a cell of the board.
    pub open spec fn on_board(self, piece: Piece) -> bool {
        &&& self.shapes.dom().contains(piece.letter)
        &&& piece.rotation < u8::MAX
        &&& forall|k: int| 0 <= k < 4 ==> self.inside(#[trigger] self.cells(piece)[k])
    }

    /// What holds of a game at every moment: the rows are those of a board
    /// that has columns and is no larger than `MAX_BOARD_SIDE`; a shape has
    /// four offsets, none of which reaches further than `MAX_REACH`; a
    /// piece of any shape can come in at the spawn place; the falling piece
    /// lies on the board; the next letter is the letter of a shape; and
    /// fewer rows than a level costs are waiting to be counted.
    pub open spec fn inv(self) -> bool {
        &&& 0 < self.width <= MAX_BOARD_SIDE
        &&& 0 <= self.height <= MAX_BOARD_SIDE
        &&& self.rows.len() == self.height
        &&& forall|y: int| 0 <= y < self.height ==> (#[trigger] self.rows[y]).len() == self.width
        &&& forall|letter: char| #[trigger]
            self.shapes.dom().contains(letter) ==> self.shapes[letter].len() == 4
        &&& forall|letter: char, k: int|
            self.shapes.dom().contains(letter) && 0 <= k < 4 ==> {
                &&& -MAX_REACH <= (#[trigger] self.shapes[letter][k]).0 <= MAX_REACH
                &&& -MAX_REACH <= self.shapes[letter][k].1 <= MAX_REACH
            }
        &&& forall|letter: char, k: int|
            self.shapes.dom().contains(letter) && 0 <= k < 4 ==> self.inside(
                #[trigger] piece_cells(self.shapes, spawn_piece(letter))[k],
            )
        &&& self.piece matches Some(piece) ==> self.on_board(piece)
        &&& self.next matches Some(letter) ==> self.shapes.dom().contains(letter)
        &&& self.progress.wf()
    }

    /// The piece can fall `n` rows and no further: each of the `n` places
    /// beneath it is clear, and the one after them is not.
    pub open spec fn lands_after(self, piece: Piece, n: int) -> bool {
        &&& 0 <= n
        &&& forall|k: int|
            1 <= k <= n ==> !self.blocked(#[trigger] shifted_cells(self.cells(piece), (0, k)))
        &&& self.blocked(shifted_cells(self.cells(piece), (0, n + 1)))
    }

    /// How many rows the piece can fall.
    pub open spec fn fall_of(self, piece: Piece) -> int {
        choose|n: int| self.lands_after(piece, n)
    }

    /// The view with `candidate` in the place of the falling piece, where
    /// there is a falling piece and `candidate` does not collide; else the
    /// view as it is.
    pub open spec fn tried(self, candidate: Piece) -> GameView {
        if self.piece is Some && !self.collides(candidate) {
            GameView { piece: Some(candidate), ..self }
        } else {
            self
        }
    }

    /// The rows with the letter of `piece` written into its four cells.
    pub open spec fn with_locked(self, piece: Piece) -> Seq<Seq<char>> {
        let cells = self.cells(piece);
        stamped(
            stamped(
                stamped(stamped(self.rows, cells[0], piece.letter), cells[1], piece.letter),
                cells[2],
                piece.letter,
            ),
            cells[3],
            piece.letter,
        )
    }

    /// The rows once the falling piece, if there is one, has been written
    /// into the board.
    pub open spec fn rows_at_rest(self) -> Seq<Seq<char>> {
        match self.piece {
            Some(piece) => self.with_locked(piece),
            None => self.rows,
        }
    }

    /// The end of a fall: the falling piece, if there is one, is written
    /// into the board and is gone; then the full rows are cleared and
    /// counted towards the next level.
    pub open spec fn settled(self) -> GameView {
        GameView {
            rows: compacted(self.rows_at_rest(), self.width as nat),
            piece: None,
            progress: self.progress.with_rows(full_row_count(self.rows_at_rest()) as int),
            ..self
        }
    }

    /// The end of a fall can be counted: neither the rows waiting to be
    /// counted nor the level leave the range of a byte.
    pub open spec fn settles(self) -> bool {
        let count = full_row_count(self.rows_at_rest());
        &&& self.progress.level_progress + count <= u8::MAX
        &&& self.progress.level + self.progress.levels_gained(count as int) <= u8::MAX
    }

    /// One step of the fall can be taken: the piece has room to move down,
    /// or the end of the fall can be counted.
    pub open spec fn falls_safely(self) -> bool {
        match self.piece {
            Some(piece) if !self.collides(piece.spec_moved(0, 1)) => true,
            _ => self.settles(),
        }
    }

    /// The game with the piece where it comes to rest.
    pub open spec fn at_rest(self) -> GameView {
        match self.piece {
            Some(piece) => GameView {
                piece: Some(piece.spec_moved(0, self.fall_of(piece))),
                ..self
            },
            None => self,
        }
    }

    /// One step of the fall: the piece moves down one row, or, where it
    /// cannot or there is none, the fall ends.
    pub open spec fn fallen_one(self) -> GameView {
        match self.piece {
            Some(piece) if !self.collides(piece.spec_moved(0, 1)) => GameView {
                piece: Some(piece.spec_moved(0, 1)),
                ..self
            },
            _ => self.settled(),
        }
    }

    /// The piece falls as far as it can, and the fall ends.
    pub open spec fn hard_dropped(self) -> GameView {
        self.at_rest().settled()
    }

    /// What a key makes of the game. Only a key that goes down counts.
    pub open spec fn after_key(self, key: Key, pressed: bool) -> GameView {
        if !pressed {
            self
        } else {
            match key {
                Key::Escape | Key::KeyP => match self.state {
                    GameState::Running => GameView { state: GameState::Paused, ..self },
                    GameState::Paused => GameView { state: GameState::Running, ..self },
                    _ => self,
                },
                Key::Space => if self.state == GameState::NotStarted {
                    GameView { state: GameState::Running, ..self }
                } else {
                    self
                },
                Key::ArrowUp => match self.piece {
                    Some(piece) => self.tried(piece.spec_rotated_cw()),
                    None => self,
                },
                Key::ArrowLeft => match self.piece {
                    Some(piece) => self.tried(piece.spec_moved(-1, 0)),
                    None => self,
                },
                Key::ArrowDown => match self.piece {
                    Some(piece) => self.tried(piece.spec_moved(0, 1)),
                    None => self,
                },
                Key::ArrowRight => match self.piece {
                    Some(piece) => self.tried(piece.spec_moved(1, 0)),
                    None => self,
                },
                Key::KeyD => self.hard_dropped(),
                Key::Other => self,
            }
        }
    }

    /// What the window's gaining or losing the focus makes of the game: a
    /// running game that loses it is paused.
    pub open spec fn after_focus(self, focused: bool) -> GameView {
        if !focused && self.state == GameState::Running {
            GameView { state: GameState::Paused, ..self }
        } else {
            self
        }
    }

    /// The time between two steps of the fall at the level reached.
    pub open spec fn interval(self, intervals: Seq<TimeSpan>) -> int {
        intervals[self.progress.level as int].nanos as int
    }

    /// The steps of the fall that the gathered time pays for: as long as a
    /// whole interval is left, it is taken away and the piece falls one
    /// step. The interval is looked up anew before each step. An interval
    /// that is not positive pays for nothing.
    pub open spec fn drained(self, intervals: Seq<TimeSpan>) -> GameView
        decreases self.timer,
    {
        let interval = self.interval(intervals);
        if 0 < interval <= self.timer {
            GameView { timer: self.timer - interval, ..self }.fallen_one().drained(intervals)
        } else {
            self
        }
    }

    /// The gathered time can be paid out: every step of the fall that it
    /// pays for is taken at a positive interval and can be taken.
    pub open spec fn runs(self, intervals: Seq<TimeSpan>) -> bool
        decreases self.timer,
    {
        let interval = self.interval(intervals);
        if interval > self.timer {
            true
        } else if interval <= 0 {
            false
        } else {
            (GameView { timer: self.timer - interval, ..self }).falls_safely() && (GameView {
                timer: self.timer - interval,
                ..self
            }).fallen_one().runs(intervals)
        }
    }

    /// The most levels that the end of one fall can bring. A fall clears
    /// no more rows than the board has.
    pub open spec fn max_level_gain(self) -> int {
        (self.progress.rows_per_level - 1 + self.height) / (self.progress.rows_per_level as int)
    }

    /// The end of a fall can be counted whatever rows it clears.
    pub open spec fn can_settle(self) -> bool {
        &&& self.progress.rows_per_level + self.height <= u8::MAX + 1
        &&& self.progress.level + self.max_level_gain() <= u8::MAX
    }

    /// The gathered time can be paid out whatever the falling piece meets:
    /// the end of a fall can be counted, and at the level reached, as at
    /// those that one fall can bring, the time between two steps is
    /// positive.
    pub open spec fn can_run(self, intervals: Seq<TimeSpan>) -> bool {
        &&& self.can_settle()
        &&& forall|level: int|
            self.progress.level <= level <= self.progress.level + self.max_level_gain() ==> (
            #[trigger] intervals[level]).nanos > 0
    }

    /// Where no piece is falling and the next letter has been drawn, a
    /// piece of that letter comes in, the timer starts anew, and the game
    /// is over if the piece collides where it comes in.
    pub open spec fn spawned(self) -> GameView {
        match (self.piece, self.next) {
            (None, Some(letter)) => GameView {
                piece: Some(spawn_piece(letter)),
                next: None,
                timer: 0,
                state: if self.collides(spawn_piece(letter)) {
                    GameState::GameOver
                } else {
                    self.state
                },
                ..self
            },
            _ => self,
        }
    }

    /// Where no next letter is known, `drawn` becomes the next letter.
    pub open spec fn refilled(self, drawn: char) -> GameView {
        if self.next is None {
            GameView { next: Some(drawn), ..self }
        } else {
            self
        }
    }

    /// What `elapsed` nanoseconds make of the game, where `drawn` is the
    /// letter that a draw would give. Only a running game changes.
    pub open spec fn after_update(
        self,
        elapsed: int,
        intervals: Seq<TimeSpan>,
        drawn: char,
    ) -> GameView {
        if self.state != GameState::Running {
            self
        } else {
            self.gathered(elapsed).drained(intervals).spawned().refilled(drawn)
        }
    }

    /// The game with `elapsed` nanoseconds more on its timer.
    pub open spec fn gathered(self, elapsed: int) -> GameView {
        GameView { timer: self.timer + elapsed, ..self }
    }

    /// A key can be taken: D, which ends the fall, needs the end of the
    /// fall to be countable where the piece comes to rest.
    pub open spec fn takes_key(self, key: Key, pressed: bool) -> bool {
        pressed && key == Key::KeyD ==> self.at_rest().settles()
    }

    /// The time can be taken: in a running game, it can be paid out.
    pub open spec fn takes_time(self, elapsed: int, intervals: Seq<TimeSpan>) -> bool {
        self.state == GameState::Running ==> self.gathered(elapsed).runs(intervals)
    }
}

} // verus!
