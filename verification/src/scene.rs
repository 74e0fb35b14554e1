//! What of a game is to be seen: for each letter, the cells to draw in its
//! colour, and the line of text that tells the player what to do.
//!
//! The locked tiles of a letter are listed row by row from the top, each row
//! from the left. After them come the cells of the falling piece's shadow,
//! under the letter kept for it, and the cells of the falling piece itself.

use crate::game::Game;
use crate::piece::Piece;
use crate::rules::{GameState, GameView};
use vstd::prelude::*;

verus! {

/// The letter under which the shadow of the falling piece is drawn: the
/// place where the piece would come to rest.
pub const GHOST_LETTER: char = 'G';

/// A line of text across the board.
pub struct Banner {
    pub text: &'static str,
    /// Red, green, blue and opacity, each out of 255.
    pub color: [u8; 4],
    /// The height of the letters, in pixels before scaling.
    pub size: u8,
    /// How far below the top of the window the text stands, in pixels
    /// before scaling.
    pub top: u16,
}

/// The text for a game that waits to be started.
pub open spec fn start_banner() -> Banner {
    Banner { text: "Press\nSPACE", color: [0, 150, 150, 200], size: 60, top: 160 }
}

/// The text for a game that is paused.
pub open spec fn pause_banner() -> Banner {
    Banner { text: "Press P", color: [0, 150, 150, 200], size: 60, top: 160 }
}

/// The text for a game that is over.
pub open spec fn end_banner() -> Banner {
    Banner { text: "Game Over", color: [150, 0, 0, 255], size: 60, top: 260 }
}

/// The text to show over the board: none while the game is running.
pub fn banner(state: GameState) -> (banner: Option<Banner>)
    ensures
        banner == match state {
            GameState::NotStarted => Some(start_banner()),
            GameState::Paused => Some(pause_banner()),
            GameState::GameOver => Some(end_banner()),
            GameState::Running => None,
        },
{
    match state {
        GameState::NotStarted => Some(
            Banner { text: "Press\nSPACE", color: [0, 150, 150, 200], size: 60, top: 160 },
        ),
        GameState::Paused => Some(
            Banner { text: "Press P", color: [0, 150, 150, 200], size: 60, top: 160 },
        ),
        GameState::GameOver => Some(
            Banner { text: "Game Over", color: [150, 0, 0, 255], size: 60, top: 260 },
        ),
        GameState::Running => None,
    }
}

/// The places of the eight copies of a text that make up its outline, as
/// offsets in pixels before scaling from the place of the text: two pixels
/// to each side, row by row from the top, each row from the left.
pub open spec fn outline() -> Seq<(int, int)> {
    seq![
        (-2int, -2int),
        (0int, -2int),
        (2int, -2int),
        (-2int, 0int),
        (2int, 0int),
        (-2int, 2int),
        (0int, 2int),
        (2int, 2int),
    ]
}

/// The offsets of the eight copies of a text that make up its outline.
pub fn outline_offsets() -> (offsets: [(i8, i8); 8])
    ensures
        forall|i: int|
            0 <= i < 8 ==> (offsets[i].0 as int, offsets[i].1 as int) == #[trigger] outline()[i],
{
    [(-2, -2), (0, -2), (2, -2), (-2, 0), (2, 0), (-2, 2), (0, 2), (2, 2)]
}

/// The cells among the first `upto` of row `y` that hold `letter`, from the
/// left.
pub open spec fn row_spots(row: Seq<char>, y: int, letter: char, upto: int) -> Seq<(int, int)>
    decreases upto,
{
    if upto <= 0 {
        Seq::empty()
    } else if row[upto - 1] == letter {
        row_spots(row, y, letter, upto - 1).push((upto - 1, y))
    } else {
        row_spots(row, y, letter, upto - 1)
    }
}

/// The cells of the first `upto` rows that hold `letter`, row by row from
/// the top.
pub open spec fn field_spots(rows: Seq<Seq<char>>, letter: char, upto: int) -> Seq<(int, int)>
    decreases upto,
{
    if upto <= 0 {
        Seq::empty()
    } else {
        field_spots(rows, letter, upto - 1) + row_spots(
            rows[upto - 1],
            upto - 1,
            letter,
            rows[upto - 1].len() as int,
        )
    }
}

/// The cells as pairs of integers.
pub open spec fn as_cells(spots: Seq<(u8, u8)>) -> Seq<(int, int)> {
    Seq::new(spots.len(), |i: int| (spots[i].0 as int, spots[i].1 as int))
}

impl GameView {
    /// Those of the first `upto` cells that are on the board, in their
    /// order.
    pub open spec fn visible(self, cells: Seq<(int, int)>, upto: int) -> Seq<(int, int)>
        decreases upto,
    {
        if upto <= 0 {
            Seq::empty()
        } else if self.inside(cells[upto - 1]) {
            self.visible(cells, upto - 1).push(cells[upto - 1])
        } else {
            self.visible(cells, upto - 1)
        }
    }

    /// The locked tiles of `letter`. A paused game shows none.
    pub open spec fn locked_spots(self, letter: char) -> Seq<(int, int)> {
        if self.state != GameState::Paused {
            field_spots(self.rows, letter, self.height)
        } else {
            Seq::empty()
        }
    }

    /// Under the letter of the shadow, the cells where the falling piece
    /// would come to rest. A game that is paused or over shows none.
    pub open spec fn shadow_spots(self, letter: char) -> Seq<(int, int)> {
        match self.piece {
            Some(piece) if letter == GHOST_LETTER && self.state != GameState::Paused && self.state
                != GameState::GameOver => self.visible(
                self.cells(piece.spec_moved(0, self.fall_of(piece))),
                4,
            ),
            _ => Seq::empty(),
        }
    }

    /// The cells of the falling piece, under its own letter.
    pub open spec fn falling_spots(self, letter: char) -> Seq<(int, int)> {
        match self.piece {
            Some(piece) if piece.letter == letter => self.visible(self.cells(piece), 4),
            _ => Seq::empty(),
        }
    }

    /// All the cells to draw for `letter`.
    pub open spec fn spots(self, letter: char) -> Seq<(int, int)> {
        self.locked_spots(letter) + self.shadow_spots(letter) + self.falling_spots(letter)
    }
}

impl Game {
    /// Adds to `spots` those cells of `piece` that are on the board.
    fn push_visible(&self, spots: &mut Vec<(u8, u8)>, piece: Piece)
        requires
            self.board.wf(),
            self.shapes.wf(),
            piece.placeable(&self.shapes),
        ensures
            as_cells(final(spots)@) == as_cells(old(spots)@) + self@.visible(self@.cells(piece), 4),
    {
        let tiles = piece.tiles(&self.shapes);
        let ghost cells = self@.cells(piece);
        let mut k: usize = 0;
        assert(as_cells(spots@) =~= as_cells(old(spots)@) + self@.visible(cells, 0));
        while k < 4
            invariant
                k <= 4,
                cells == self@.cells(piece),
                forall|j: int| 0 <= j < 4 ==> (#[trigger] tiles[j])@ == cells[j],
                as_cells(spots@) == as_cells(old(spots)@) + self@.visible(cells, k as int),
            decreases 4 - k,
        {
            let pos = tiles[k];
            assert(tiles[k as int]@ == cells[k as int]);
            if self.board.contains(pos) {
                let ghost before = spots@;
                spots.push((pos.x as u8, pos.y as u8));
                assert(as_cells(spots@) =~= as_cells(before).push(cells[k as int]));
                assert(as_cells(spots@) =~= as_cells(old(spots)@) + self@.visible(
                    cells,
                    k as int + 1,
                ));
            }
            k = k + 1;
        }
    }

    /// The cells to draw for `letter`: its locked tiles, then the shadow of
    /// the falling piece if `letter` is the letter of the shadow, then the
    /// falling piece if it is of that letter. A paused game shows the
    /// falling piece only, a game that is over no shadow.
    pub fn tile_spots(&self, letter: char) -> (spots: Vec<(u8, u8)>)
        requires
            self.wf(),
        ensures
            as_cells(spots@) == self@.spots(letter),
    {
        let mut spots: Vec<(u8, u8)> = Vec::new();
        assert(as_cells(spots@) =~= field_spots(self@.rows, letter, 0));
        if self.state != GameState::Paused {
            let mut y: u8 = 0;
            while y < self.board.height
                invariant
                    self.board.wf(),
                    y <= self.board.height,
                    as_cells(spots@) == field_spots(self@.rows, letter, y as int),
                decreases self.board.height - y,
            {
                let mut x: u8 = 0;
                assert(as_cells(spots@) =~= field_spots(self@.rows, letter, y as int) + row_spots(
                    self@.rows[y as int],
                    y as int,
                    letter,
                    0,
                ));
                while x < self.board.width
                    invariant
                        self.board.wf(),
                        y < self.board.height,
                        x <= self.board.width,
                        as_cells(spots@) == field_spots(self@.rows, letter, y as int) + row_spots(
                            self@.rows[y as int],
                            y as int,
                            letter,
                            x as int,
                        ),
                    decreases self.board.width - x,
                {
                    if self.board.tiles[y as usize][x as usize] == letter {
                        let ghost before = spots@;
                        spots.push((x, y));
                        assert(as_cells(spots@) =~= as_cells(before).push((x as int, y as int)));
                        assert(as_cells(spots@) =~= field_spots(self@.rows, letter, y as int)
                            + row_spots(self@.rows[y as int], y as int, letter, x as int + 1));
                    }
                    x = x + 1;
                }
                y = y + 1;
            }
        }
        assert(as_cells(spots@) == self@.locked_spots(letter));
        if letter == GHOST_LETTER && self.state != GameState::Paused && self.state
            != GameState::GameOver {
            if let Some(piece) = self.moving_piece {
                let resting = self.landed(piece);
                proof {
                    self.lemma_room(resting, resting);
                }
                self.push_visible(&mut spots, resting);
            }
        }
        assert(as_cells(spots@) =~= self@.locked_spots(letter) + self@.shadow_spots(letter));
        if let Some(piece) = self.moving_piece {
            if piece.letter == letter {
                proof {
                    self.lemma_room(piece, piece);
                }
                self.push_visible(&mut spots, piece);
            }
        }
        assert(as_cells(spots@) =~= self@.spots(letter));
        spots
    }
}

} // verus!
