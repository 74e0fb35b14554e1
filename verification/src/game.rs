//! The game itself: a board, a falling piece, and what keys and time make
//! of them.

use crate::board::Board;
use crate::geometry::{fits_i8, shifted_cells, Pos};
use crate::piece::{piece_cells, Piece, ShapeTable, MAX_REACH};
use crate::progress::GameProgress;
use crate::rows::empty_rows;
use crate::laws::{
    law_fall_is_unique, law_key_keeps_inv, lemma_can_run, lemma_can_take_key,
    lemma_inv_carries_over, lemma_settled_keeps_inv,
};
pub use crate::rules::{spawn_piece, GameState, GameView, Key, MAX_BOARD_SIDE, SPAWN_X, SPAWN_Y};
use crate::time::{TimeSpan, Timer};
use rand::Rng;
use vstd::prelude::*;

verus! {

/// The number of levels that a `u8` can count, and so the number of
/// intervals that a game is handed: one for each level.
pub const LEVEL_COUNT: usize = 256;

pub struct Game {
    pub board: Board,
    pub state: GameState,
    pub shapes: ShapeTable,
    pub moving_piece_timer: Timer,
    pub moving_piece: Option<Piece>,
    pub next_shape: Option<char>,
    pub progress: GameProgress,
}

impl View for Game {
    type V = GameView;

    open spec fn view(&self) -> GameView {
        GameView {
            width: self.board.width as int,
            height: self.board.height as int,
            rows: self.board@,
            state: self.state,
            shapes: self.shapes@,
            timer: self.moving_piece_timer.time.nanos as int,
            piece: self.moving_piece,
            next: self.next_shape,
            progress: self.progress,
        }
    }
}

/// Picks a number below `len` with `rand::Rng::random_range` on the
/// generator of the running thread, `rand::rng`. Believed of it: the number
/// lies in the range it was asked for. An empty range makes it panic, so
/// `len` must not be zero.
#[verifier::external_body]
fn random_index(len: usize) -> (index: usize)
    requires
        len > 0,
    ensures
        index < len,
{
    rand::rng().random_range(0..len)
}

/// One of the letters, picked by chance.
fn random_shape(values: &[char]) -> (letter: char)
    requires
        values@.len() > 0,
    ensures
        values@.contains(letter),
{
    values[random_index(values.len())]
}

/// The ways in which a key or the passing of time can move the falling
/// piece.
#[derive(Clone, Copy)]
enum Motion {
    Turn,
    Left,
    Right,
    Down,
}

impl Motion {
    /// The piece after the motion.
    spec fn applied(self, piece: Piece) -> Piece {
        match self {
            Motion::Turn => piece.spec_rotated_cw(),
            Motion::Left => piece.spec_moved(-1, 0),
            Motion::Right => piece.spec_moved(1, 0),
            Motion::Down => piece.spec_moved(0, 1),
        }
    }
}

impl Game {
    /// The piece lies on the board: the table has its shape, its turns can
    /// still be counted, and each of its cells is a cell of the board.
    pub open spec fn holds(&self, piece: Piece) -> bool {
        self@.on_board(piece)
    }

    /// The parts of the game fit together: the board and the table of
    /// shapes are well formed, and what holds of a game at every moment
    /// holds of this one.
    pub open spec fn wf(&self) -> bool {
        &&& self.board.wf()
        &&& self.shapes.wf()
        &&& self@.inv()
    }

    /// The end of a fall can be counted whatever rows it clears.
    pub open spec fn can_settle(&self) -> bool {
        self@.can_settle()
    }

    /// The game can take `time_passed` whatever the falling piece meets:
    /// the timer can hold it, the end of a fall can be counted, and at the
    /// level reached, as at those that one fall can bring, the time between
    /// two steps is positive.
    pub open spec fn can_run(&self, time_passed: TimeSpan, intervals: Seq<TimeSpan>) -> bool {
        &&& i128::MIN <= self.moving_piece_timer.time.nanos + time_passed.nanos <= i128::MAX
        &&& self@.can_run(intervals)
    }

    /// The game can take `time_passed`: if it is running, its timer can
    /// hold the time, and the time can be paid out.
    pub open spec fn takes_time(&self, time_passed: TimeSpan, intervals: Seq<TimeSpan>) -> bool {
        self.state == GameState::Running ==> {
            &&& i128::MIN <= self.moving_piece_timer.time.nanos + time_passed.nanos <= i128::MAX
            &&& self@.gathered(time_passed.nanos as int).runs(intervals)
        }
    }

    /// Of a well-formed table of shapes holds what holds of the shapes of a
    /// game at every moment: each has four offsets, none further than
    /// `MAX_REACH` from the origin.
    proof fn lemma_shapes(&self)
        requires
            self.shapes.wf(),
        ensures
            forall|letter: char| #[trigger]
                self@.shapes.dom().contains(letter) ==> self@.shapes[letter].len() == 4,
            forall|letter: char, k: int|
                self@.shapes.dom().contains(letter) && 0 <= k < 4 ==> {
                    &&& -MAX_REACH <= (#[trigger] self@.shapes[letter][k]).0 <= MAX_REACH
                    &&& -MAX_REACH <= self@.shapes[letter][k].1 <= MAX_REACH
                },
    {
        assert forall|letter: char| #[trigger]
            self@.shapes.dom().contains(letter) implies self@.shapes[letter].len() == 4 by {
            self.shapes.lemma_reach(letter);
        }
        assert forall|letter: char, k: int|
            self@.shapes.dom().contains(letter) && 0 <= k < 4 implies {
            &&& -MAX_REACH <= (#[trigger] self@.shapes[letter][k]).0 <= MAX_REACH
            &&& -MAX_REACH <= self@.shapes[letter][k].1 <= MAX_REACH
        } by {
            self.shapes.lemma_reach(letter);
        }
    }

    /// Whether the end of a fall can be counted whatever rows it clears. If
    /// so, any key can be taken.
    pub fn ready_to_settle(&self) -> (ready: bool)
        requires
            self.wf(),
        ensures
            ready == self.can_settle(),
            ready ==> forall|key: Key, pressed: bool| #[trigger] self@.takes_key(key, pressed),
    {
        let per: u16 = self.progress.rows_per_level as u16;
        let gain: u16 = (per - 1 + self.board.height as u16) / per;
        let ready = per + self.board.height as u16 <= 256 && self.progress.level as u16 + gain
            <= 255;
        proof {
            if ready {
                assert forall|key: Key, pressed: bool| #[trigger]
                    self@.takes_key(key, pressed) by {
                    lemma_can_take_key(self@, key, pressed);
                }
            }
        }
        ready
    }

    /// Whether the game can take `time_passed` whatever the falling piece
    /// meets. A game that is not running takes any time. If so, the time
    /// can be taken.
    pub fn ready_for(&self, time_passed: TimeSpan, intervals: &[TimeSpan; LEVEL_COUNT]) -> (ready: bool)
        requires
            self.wf(),
        ensures
            ready == (self.state == GameState::Running ==> self.can_run(time_passed, intervals@)),
            ready ==> self.takes_time(time_passed, intervals@),
    {
        if self.state != GameState::Running {
            return true;
        }
        if !self.ready_to_settle() {
            return false;
        }
        if self.moving_piece_timer.time.nanos.checked_add(time_passed.nanos).is_none() {
            return false;
        }
        let per: u16 = self.progress.rows_per_level as u16;
        let last: u16 = self.progress.level as u16 + (per - 1 + self.board.height as u16) / per;
        let mut level: u16 = self.progress.level as u16;
        while level <= last
            invariant
                self.wf(),
                self.state == GameState::Running,
                self.can_settle(),
                i128::MIN <= self.moving_piece_timer.time.nanos + time_passed.nanos <= i128::MAX,
                self.progress.level <= level <= last + 1,
                last == self.progress.level + self@.max_level_gain(),
                last <= u8::MAX,
                forall|l: int| self.progress.level <= l < level ==> (#[trigger] intervals@[l]).nanos > 0,
            decreases last + 1 - level,
        {
            if intervals[level as usize].nanos <= 0 {
                assert(!(intervals@[level as int].nanos > 0));
                return false;
            }
            level = level + 1;
        }
        proof {
            let gathered = self@.gathered(time_passed.nanos as int);
            lemma_inv_carries_over(self@, gathered);
            lemma_can_run(gathered, intervals@);
        }
        true
    }

    /// The time between two steps of the fall at the level reached, out of
    /// the intervals for all levels.
    pub fn time_between_moves(&self, intervals: &[TimeSpan; LEVEL_COUNT]) -> (interval: TimeSpan)
        ensures
            interval == intervals@[self.progress.level as int],
            interval.nanos == self@.interval(intervals@),
    {
        intervals[self.progress.level as usize]
    }

    /// A running game whose window loses the focus is paused.
    pub fn on_focus_changed(&mut self, focused: bool)
        ensures
            final(self)@ == old(self)@.after_focus(focused),
            old(self).wf() ==> final(self).wf(),
    {
        if !focused && self.state == GameState::Running {
            self.state = GameState::Paused;
        }
        proof {
            if old(self).wf() {
                lemma_inv_carries_over(old(self)@, self@);
            }
        }
    }

    /// Whether one of the cells of `piece` is off the board or taken.
    pub fn piece_collides(&self, piece: Piece) -> (collides: bool)
        requires
            self.board.wf(),
            self.shapes.wf(),
            piece.placeable(&self.shapes),
        ensures
            collides == self@.collides(piece),
            collides == exists|k: int|
                0 <= k < 4 && !(self.board.spec_contains(#[trigger] piece.cells(&self.shapes)[k])
                    && self.board.tile_at(piece.cells(&self.shapes)[k]) is None),
    {
        let tiles = piece.tiles(&self.shapes);
        let ghost cells = piece.cells(&self.shapes);
        let mut k: usize = 0;
        while k < 4
            invariant
                k <= 4,
                self.board.wf(),
                cells == piece.cells(&self.shapes),
                forall|j: int| 0 <= j < 4 ==> (#[trigger] tiles[j])@ == cells[j],
                forall|j: int| 0 <= j < k ==> self@.free(#[trigger] cells[j]),
            decreases 4 - k,
        {
            let pos = tiles[k];
            assert(tiles[k as int]@ == cells[k as int]);
            if !self.board.contains(pos) {
                assert(!self@.free(cells[k as int]));
                return true;
            }
            if self.board.get_tile(pos).is_some() {
                assert(!self@.free(cells[k as int]));
                return true;
            }
            k = k + 1;
        }
        false
    }

    /// A piece on the board has its origin near the board, and room around
    /// it: a piece of its letter whose origin is no more than one step away
    /// can be placed, however it is turned.
    pub(crate) proof fn lemma_room(&self, piece: Piece, near: Piece)
        requires
            self.wf(),
            self.holds(piece),
            near.letter == piece.letter,
            -1 <= near.origin.x - piece.origin.x <= 1,
            -1 <= near.origin.y - piece.origin.y <= 1,
        ensures
            near.placeable(&self.shapes),
    {
        crate::laws::lemma_room(self@, piece, near);
        assert forall|k: int| 0 <= k < 4 implies fits_i8(#[trigger] near.cells(&self.shapes)[k]) by {
            assert(fits_i8(self@.cells(near)[k]));
        }
    }

    /// The origin of a piece on the board is on the board or within reach
    /// of it.
    pub(crate) proof fn lemma_origin(&self, piece: Piece)
        requires
            self.wf(),
            self.holds(piece),
        ensures
            -MAX_REACH <= piece.origin.x <= MAX_BOARD_SIDE + MAX_REACH - 1,
            -MAX_REACH <= piece.origin.y <= MAX_BOARD_SIDE + MAX_REACH - 1,
    {
        crate::laws::lemma_origin_near_board(self@, piece);
    }

    /// The falling piece after `motion`, where there is a falling piece and
    /// the motion does not make it collide.
    fn try_update_moving_piece(&self, motion: Motion) -> (updated: Option<Piece>)
        requires
            self.wf(),
        ensures
            updated == match self.moving_piece {
                Some(piece) if !self@.collides(motion.applied(piece)) => Some(
                    motion.applied(piece),
                ),
                _ => None,
            },
            updated matches Some(piece) ==> self.holds(piece),
    {
        if let Some(piece) = self.moving_piece {
            proof {
                self.lemma_origin(piece);
                self.lemma_room(piece, motion.applied(piece));
            }
            let updated = match motion {
                Motion::Turn => piece.rotated_cw(),
                Motion::Left => piece.moved(Pos::new(-1, 0)),
                Motion::Right => piece.moved(Pos::new(1, 0)),
                Motion::Down => piece.moved(Pos::new(0, 1)),
            };
            if !self.piece_collides(updated) {
                assert forall|k: int| 0 <= k < 4 implies self.board.spec_contains(
                    #[trigger] updated.cells(&self.shapes)[k],
                ) by {
                    assert(self@.free(updated.cells(&self.shapes)[k]));
                }
                return Some(updated);
            }
        }
        None
    }

    /// The end of a fall: the falling piece, if there is one, is written
    /// into the board; the full rows are cleared and counted.
    fn handle_dropped_piece(&mut self)
        requires
            old(self).wf(),
            old(self)@.settles(),
        ensures
            final(self).wf(),
            final(self)@ == old(self)@.settled(),
    {
        if let Some(piece) = self.moving_piece {
            self.moving_piece = None;
            let tiles = piece.tiles(&self.shapes);
            let ghost cells = piece.cells(&self.shapes);
            assert(self.board.spec_contains(cells[0]) && tiles[0]@ == cells[0]);
            self.board.set_tile(tiles[0], piece.letter);
            assert(self.board.spec_contains(cells[1]) && tiles[1]@ == cells[1]);
            self.board.set_tile(tiles[1], piece.letter);
            assert(self.board.spec_contains(cells[2]) && tiles[2]@ == cells[2]);
            self.board.set_tile(tiles[2], piece.letter);
            assert(self.board.spec_contains(cells[3]) && tiles[3]@ == cells[3]);
            self.board.set_tile(tiles[3], piece.letter);
            assert(self.board@ == old(self)@.with_locked(piece));
        }
        assert(self.board@ == old(self)@.rows_at_rest());
        let removed = self.board.remove_full_rows();
        self.progress.add_rows(removed);
        assert(self@ =~= old(self)@.settled());
        proof {
            lemma_settled_keeps_inv(old(self)@);
        }
    }

    /// Where `piece` comes to rest when it falls as far as it can.
    pub fn landed(&self, piece: Piece) -> (resting: Piece)
        requires
            self.wf(),
            self.holds(piece),
        ensures
            self.holds(resting),
            resting == piece.spec_moved(0, self@.fall_of(piece)),
            self@.lands_after(piece, self@.fall_of(piece)),
    {
        let mut resting = piece;
        let ghost mut fall: int = 0;
        proof {
            self.lemma_origin(piece);
        }
        loop
            invariant_except_break
                self.wf(),
                self.holds(piece),
                self.holds(resting),
                0 <= fall,
                resting == piece.spec_moved(0, fall),
                resting.origin.y == piece.origin.y + fall,
                forall|k: int|
                    1 <= k <= fall ==> !self@.blocked(
                        #[trigger] shifted_cells(self@.cells(piece), (0, k)),
                    ),
            ensures
                self.holds(resting),
                resting == piece.spec_moved(0, fall),
                self@.lands_after(piece, fall),
            decreases MAX_BOARD_SIDE + MAX_REACH - resting.origin.y,
        {
            let ghost below = resting.spec_moved(0, 1);
            proof {
                self.lemma_origin(resting);
                self.lemma_room(resting, below);
                crate::laws::lemma_moved_cells(self@, piece, 0, fall + 1);
                assert(below == piece.spec_moved(0, fall + 1));
            }
            let candidate = resting.moved(Pos::new(0, 1));
            if self.piece_collides(candidate) {
                break;
            }
            proof {
                assert forall|k: int| 0 <= k < 4 implies self.board.spec_contains(
                    #[trigger] candidate.cells(&self.shapes)[k],
                ) by {
                    assert(self@.free(candidate.cells(&self.shapes)[k]));
                }
                fall = fall + 1;
            }
            resting = candidate;
        }
        proof {
            law_fall_is_unique(self@, piece, fall);
        }
        resting
    }

    /// Takes a key that went down or came up. Only a key that goes down
    /// does anything: Escape and P pause a running game and wake a paused
    /// one; Space starts a game; the arrows turn and move the falling
    /// piece where it has room; D lets it fall to the ground at once.
    pub fn handle_key(&mut self, code: Key, is_pressed: bool)
        requires
            old(self).wf(),
            old(self)@.takes_key(code, is_pressed),
        ensures
            final(self).wf(),
            final(self)@ == old(self)@.after_key(code, is_pressed),
    {
        if !is_pressed {
            return ;
        }
        match code {
            Key::Escape | Key::KeyP => {
                self.state =
                match self.state {
                    GameState::Running => GameState::Paused,
                    GameState::Paused => GameState::Running,
                    state => state,
                };
            },
            Key::Space => {
                if self.state == GameState::NotStarted {
                    self.state = GameState::Running;
                }
            },
            Key::ArrowUp => {
                if let Some(piece) = self.try_update_moving_piece(Motion::Turn) {
                    self.moving_piece = Some(piece);
                }
            },
            Key::ArrowLeft => {
                if let Some(piece) = self.try_update_moving_piece(Motion::Left) {
                    self.moving_piece = Some(piece);
                }
            },
            Key::ArrowDown => {
                if let Some(piece) = self.try_update_moving_piece(Motion::Down) {
                    self.moving_piece = Some(piece);
                }
            },
            Key::ArrowRight => {
                if let Some(piece) = self.try_update_moving_piece(Motion::Right) {
                    self.moving_piece = Some(piece);
                }
            },
            Key::KeyD => {
                if let Some(piece) = self.moving_piece {
                    let resting = self.landed(piece);
                    self.moving_piece = Some(resting);
                }
                assert(self@ == old(self)@.at_rest());
                proof {
                    lemma_inv_carries_over(old(self)@, self@);
                }
                self.handle_dropped_piece();
            },
            Key::Other => {},
        }
        proof {
            if !(is_pressed && code == Key::KeyD) {
                law_key_keeps_inv(old(self)@, code, is_pressed);
            }
        }
    }

    /// What time makes of a running game, short of drawing a letter: the
    /// timer gathers `time_passed` and pays for the steps of the fall, and
    /// where no piece is left falling, the next one comes in.
    fn run(&mut self, time_passed: TimeSpan, intervals: &[TimeSpan; LEVEL_COUNT])
        requires
            old(self).wf(),
            i128::MIN <= old(self).moving_piece_timer.time.nanos + time_passed.nanos <= i128::MAX,
            old(self)@.gathered(time_passed.nanos as int).runs(intervals@),
        ensures
            final(self).wf(),
            final(self)@ == old(self)@.gathered(time_passed.nanos as int).drained(
                intervals@,
            ).spawned(),
            final(self)@.shapes == old(self)@.shapes,
    {
        self.moving_piece_timer.advance(time_passed);
        let ghost start = self@;
        proof {
            lemma_inv_carries_over(old(self)@, start);
        }
        loop
            invariant_except_break
                self.wf(),
                self@.runs(intervals@),
                self@.drained(intervals@) == start.drained(intervals@),
                self@.shapes == start.shapes,
            ensures
                self.wf(),
                self@ == start.drained(intervals@),
                self@.shapes == start.shapes,
            decreases self.moving_piece_timer.time.nanos,
        {
            let interval = self.time_between_moves(intervals);
            let ghost before = self@;
            if !self.moving_piece_timer.tick(interval) {
                break ;
            }
            proof {
                lemma_inv_carries_over(before, self@);
            }
            if let Some(piece) = self.try_update_moving_piece(Motion::Down) {
                self.moving_piece = Some(piece);
                proof {
                    lemma_inv_carries_over(
                        (GameView { timer: before.timer - interval.nanos, ..before }),
                        self@,
                    );
                }
            } else {
                self.handle_dropped_piece();
            }
            assert(self@ == (GameView {
                timer: before.timer - interval.nanos,
                ..before
            }).fallen_one());
        }
        if self.moving_piece.is_none() {
            if let Some(letter) = self.next_shape {
                let ghost waiting = self@;
                self.next_shape = None;
                let piece = Piece::new(letter, 0, Pos { x: SPAWN_X, y: SPAWN_Y });
                assert(piece == spawn_piece(letter));
                proof {
                    lemma_inv_carries_over(waiting, self@);
                }
                assert forall|k: int| 0 <= k < 4 implies fits_i8(
                    #[trigger] piece.cells(&self.shapes)[k],
                ) by {
                    assert(self.board.spec_contains(
                        piece_cells(self.shapes@, spawn_piece(letter))[k],
                    ));
                }
                let ghost drained = self@;
                self.moving_piece = Some(piece);
                self.moving_piece_timer.reset();
                if self.piece_collides(piece) {
                    self.state = GameState::GameOver;
                }
                proof {
                    assert forall|k: int| 0 <= k < 4 implies drained.inside(
                        #[trigger] drained.cells(piece)[k],
                    ) by {
                        assert(drained.inside(piece_cells(drained.shapes, spawn_piece(letter))[k]));
                    }
                    lemma_inv_carries_over(drained, self@);
                }
            }
        }
    }

    /// Lets `time_passed` pass, with `drawn` for the letter that a draw
    /// gives. A game that is not running stays as it is. In a running game
    /// the timer gathers the time and pays for the steps of the fall, each
    /// at the interval of the level reached by then; a piece that cannot
    /// fall further is written into the board, and the full rows are
    /// cleared and counted. Where no piece is left falling the next one
    /// comes in, and the game is over if it collides at once. At the end
    /// `drawn` becomes the next letter if none is known.
    pub fn update_with(&mut self, time_passed: TimeSpan, intervals: &[TimeSpan; LEVEL_COUNT], drawn: char)
        requires
            old(self).wf(),
            old(self).shapes@.dom().contains(drawn),
            old(self).takes_time(time_passed, intervals@),
        ensures
            final(self).wf(),
            final(self)@ == old(self)@.after_update(time_passed.nanos as int, intervals@, drawn),
    {
        if self.state != GameState::Running {
            return ;
        }
        self.run(time_passed, intervals);
        let ghost spawned = self@;
        if self.next_shape.is_none() {
            self.next_shape = Some(drawn);
        }
        proof {
            lemma_inv_carries_over(spawned, self@);
        }
    }

    /// Lets `time_passed` pass, as `update_with` does, and draws the next
    /// letter by chance where one is needed.
    pub fn update(&mut self, time_passed: TimeSpan, intervals: &[TimeSpan; LEVEL_COUNT])
        requires
            old(self).wf(),
            old(self).takes_time(time_passed, intervals@),
        ensures
            final(self).wf(),
            exists|drawn: char|
                old(self).shapes@.dom().contains(drawn) && final(self)@ == old(self)@.after_update(
                    time_passed.nanos as int,
                    intervals@,
                    drawn,
                ),
    {
        proof {
            self.shapes.lemma_entry(0);
        }
        let ghost any = self.shapes.entries@[0].0;
        if self.state != GameState::Running {
            assert(self@ == old(self)@.after_update(time_passed.nanos as int, intervals@, any));
            return ;
        }
        self.run(time_passed, intervals);
        let ghost spawned = self@;
        if self.next_shape.is_none() {
            let letters = self.shapes.letters();
            let drawn = random_shape(letters.as_slice());
            proof {
                let i = choose|i: int| 0 <= i < letters@.len() && letters@[i] == drawn;
                self.shapes.lemma_entry(i);
            }
            self.next_shape = Some(drawn);
            proof {
                lemma_inv_carries_over(spawned, self@);
            }
            assert(self@ == old(self)@.after_update(time_passed.nanos as int, intervals@, drawn));
        } else {
            assert(self@ == old(self)@.after_update(time_passed.nanos as int, intervals@, any));
        }
    }
}

impl Default for Game {
    /// A game that has not started: an empty board of ten by twenty cells,
    /// the seven standard shapes, and sixty levels of ten rows each.
    fn default() -> (game: Game)
        ensures
            game.wf(),
            game.can_settle(),
            game@ == (GameView {
                width: 10,
                height: 20,
                rows: empty_rows(20, 10),
                state: GameState::NotStarted,
                shapes: crate::piece::standard_shapes(),
                timer: 0,
                piece: None,
                next: None,
                progress: GameProgress {
                    levels_to_win: 60,
                    level: 0,
                    rows_per_level: 10,
                    level_progress: 0,
                },
            }),
    {
        let game = Game {
            shapes: ShapeTable::standard(),
            board: Board::new(10, 20),
            state: GameState::NotStarted,
            moving_piece: None,
            next_shape: None,
            progress: GameProgress::new(60, 10),
            moving_piece_timer: Timer::new(),
        };
        proof {
            game.lemma_shapes();
        }
        assert(game.wf());
        game
    }
}

} // verus!
