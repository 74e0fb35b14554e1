//! The grid of locked tiles, and the clearing of its full rows.
//!
//! A board is viewed as its rows from top to bottom, each a sequence of
//! tiles. Row `0` is the top row; pieces fall towards higher `y`.

use crate::geometry::Pos;
use crate::rows::{
    compacted, empty_row, empty_rows, full_row_count, kept_rows, lemma_kept_rows_from, row_full,
    EMPTY_TILE,
};
use vstd::prelude::*;

verus! {

pub struct Board {
    pub tiles: Vec<Vec<char>>,
    pub width: u8,
    pub height: u8,
}

impl View for Board {
    type V = Seq<Seq<char>>;

    open spec fn view(&self) -> Seq<Seq<char>> {
        Seq::new(self.tiles@.len(), |y: int| self.tiles@[y]@)
    }
}

impl Board {
    /// The board has `height` rows of `width` cells each.
    pub open spec fn wf(&self) -> bool {
        &&& self.tiles@.len() == self.height
        &&& forall|y: int| 0 <= y < self.height ==> (#[trigger] self.tiles@[y])@.len() == self.width
    }

    /// The position lies on the board.
    pub open spec fn spec_contains(&self, p: (int, int)) -> bool {
        0 <= p.0 < self.width && 0 <= p.1 < self.height
    }

    /// What the cell at `p` holds: a tile, or nothing.
    pub open spec fn tile_at(&self, p: (int, int)) -> Option<char> {
        if self@[p.1][p.0] == EMPTY_TILE {
            None
        } else {
            Some(self@[p.1][p.0])
        }
    }

    /// An empty board of the given size.
    pub fn new(width: u8, height: u8) -> (board: Board)
        ensures
            board.wf(),
            board.width == width,
            board.height == height,
            board@ == empty_rows(height as nat, width as nat),
    {
        let mut tiles: Vec<Vec<char>> = Vec::new();
        let mut y: u8 = 0;
        while y < height
            invariant
                y <= height,
                tiles@.len() == y,
                forall|j: int| 0 <= j < y ==> (#[trigger] tiles@[j])@ == empty_row(width as nat),
            decreases height - y,
        {
            let mut row: Vec<char> = Vec::new();
            let mut x: u8 = 0;
            while x < width
                invariant
                    x <= width,
                    row@.len() == x,
                    forall|i: int| 0 <= i < x ==> row@[i] == EMPTY_TILE,
                decreases width - x,
            {
                row.push(EMPTY_TILE);
                x = x + 1;
            }
            assert(row@ =~= empty_row(width as nat));
            tiles.push(row);
            y = y + 1;
        }
        let board = Board { tiles, width, height };
        assert(board@ =~= empty_rows(height as nat, width as nat));
        board
    }

    /// The tile at `pos`, or `None` where the cell is empty.
    pub fn get_tile(&self, pos: Pos) -> (tile: Option<char>)
        requires
            self.wf(),
            self.spec_contains(pos@),
        ensures
            tile == self.tile_at(pos@),
    {
        let t = self.tiles[pos.y as usize][pos.x as usize];
        if t != EMPTY_TILE {
            Some(t)
        } else {
            None
        }
    }

    /// Writes `tile` into the cell at `pos`.
    pub fn set_tile(&mut self, pos: Pos, tile: char)
        requires
            old(self).wf(),
            old(self).spec_contains(pos@),
        ensures
            final(self).wf(),
            final(self).width == old(self).width,
            final(self).height == old(self).height,
            final(self)@ == old(self)@.update(
                pos.y as int,
                old(self)@[pos.y as int].update(pos.x as int, tile),
            ),
    {
        self.tiles[pos.y as usize][pos.x as usize] = tile;
        assert(self@ =~= old(self)@.update(
            pos.y as int,
            old(self)@[pos.y as int].update(pos.x as int, tile),
        ));
    }

    /// Empties the cell at `pos`.
    pub fn clear_tile(&mut self, pos: Pos)
        requires
            old(self).wf(),
            old(self).spec_contains(pos@),
        ensures
            final(self).wf(),
            final(self).width == old(self).width,
            final(self).height == old(self).height,
            final(self)@ == old(self)@.update(
                pos.y as int,
                old(self)@[pos.y as int].update(pos.x as int, EMPTY_TILE),
            ),
    {
        self.tiles[pos.y as usize][pos.x as usize] = EMPTY_TILE;
        assert(self@ =~= old(self)@.update(
            pos.y as int,
            old(self)@[pos.y as int].update(pos.x as int, EMPTY_TILE),
        ));
    }

    /// Whether `pos` lies on the board.
    pub fn contains(&self, pos: Pos) -> (inside: bool)
        ensures
            inside == self.spec_contains(pos@),
    {
        if pos.x < 0 || pos.y < 0 {
            return false;
        }
        let x = pos.x as u8;
        let y = pos.y as u8;
        if x >= self.width || y >= self.height {
            return false;
        }
        true
    }

    /// Whether no cell of row `y` is empty.
    fn row_is_full(&self, y: u8) -> (full: bool)
        requires
            self.wf(),
            y < self.height,
        ensures
            full == row_full(self@[y as int]),
    {
        let mut x: u8 = 0;
        while x < self.width
            invariant
                self.wf(),
                y < self.height,
                x <= self.width,
                forall|i: int| 0 <= i < x ==> self@[y as int][i] != EMPTY_TILE,
            decreases self.width - x,
        {
            if self.tiles[y as usize][x as usize] == EMPTY_TILE {
                return false;
            }
            x = x + 1;
        }
        true
    }

    /// Writes the tiles of row `y` into row `to`, cell by cell, passing over
    /// the empty cells of row `y`. Row `to` is row `y` itself or holds
    /// nothing, so it ends as a copy of row `y`.
    fn sink_row(&mut self, y: u8, to: u8)
        requires
            old(self).wf(),
            y <= to < old(self).height,
            to != y ==> old(self)@[to as int] == empty_row(old(self).width as nat),
        ensures
            final(self).wf(),
            final(self).width == old(self).width,
            final(self).height == old(self).height,
            final(self)@ == old(self)@.update(to as int, old(self)@[y as int]),
    {
        let mut x: u8 = 0;
        while x < self.width
            invariant
                self.wf(),
                self.width == old(self).width,
                self.height == old(self).height,
                y <= to < self.height,
                x <= self.width,
                forall|j: int| 0 <= j < self.height && j != to ==> self@[j] == old(self)@[j],
                forall|i: int| 0 <= i < x ==> self@[to as int][i] == old(self)@[y as int][i],
                forall|i: int| x <= i < self.width ==> self@[to as int][i] == old(self)@[to as int][i],
                to != y ==> old(self)@[to as int] == empty_row(old(self).width as nat),
            decreases self.width - x,
        {
            let tile = self.tiles[y as usize][x as usize];
            if tile != EMPTY_TILE {
                self.tiles[to as usize][x as usize] = tile;
            }
            x = x + 1;
        }
        assert(self@[to as int] =~= old(self)@[y as int]);
        assert(self@ =~= old(self)@.update(to as int, old(self)@[y as int]));
    }

    /// Empties every cell of row `y`.
    fn clear_row(&mut self, y: u8)
        requires
            old(self).wf(),
            y < old(self).height,
        ensures
            final(self).wf(),
            final(self).width == old(self).width,
            final(self).height == old(self).height,
            final(self)@ == old(self)@.update(y as int, empty_row(old(self).width as nat)),
    {
        let mut x: u8 = 0;
        while x < self.width
            invariant
                self.wf(),
                self.width == old(self).width,
                self.height == old(self).height,
                y < self.height,
                x <= self.width,
                forall|j: int| 0 <= j < self.height && j != y ==> self@[j] == old(self)@[j],
                forall|i: int| 0 <= i < x ==> self@[y as int][i] == EMPTY_TILE,
            decreases self.width - x,
        {
            let ghost prev = self@;
            self.tiles[y as usize][x as usize] = EMPTY_TILE;
            assert(self@[y as int] =~= prev[y as int].update(x as int, EMPTY_TILE));
            x = x + 1;
        }
        assert(self@[y as int] =~= empty_row(old(self).width as nat));
        assert(self@ =~= old(self)@.update(y as int, empty_row(old(self).width as nat)));
    }

    /// Clears every full row and lets the rows above sink into the gaps.
    /// Returns how many rows were cleared.
    ///
    /// The rows are visited from the bottom up. A row that is not full is
    /// written as many rows lower as full rows have been met so far, and
    /// once a full row has been met every visited row is emptied behind it.
    pub fn remove_full_rows(&mut self) -> (removed: u8)
        requires
            old(self).wf(),
        ensures
            final(self).wf(),
            final(self).width == old(self).width,
            final(self).height == old(self).height,
            removed == full_row_count(old(self)@),
            final(self)@ == compacted(old(self)@, old(self).width as nat),
    {
        let ghost rows = self@;
        let ghost h = self.height as int;
        let ghost w = self.width as nat;
        let mut removed_rows: u8 = 0;
        let mut y: u8 = self.height;
        proof {
            assert(rows.subrange(h, h) =~= Seq::<Seq<char>>::empty());
            reveal_with_fuel(Seq::filter, 1);
            assert(self@.subrange(h, h) =~= kept_rows(rows.subrange(h, h)));
        }
        while y > 0
            invariant
                self.wf(),
                self.width == w,
                self.height == h,
                rows.len() == h,
                y <= h,
                removed_rows == full_row_count(rows.subrange(y as int, h)),
                y + removed_rows <= h,
                forall|j: int| 0 <= j < y ==> self@[j] == rows[j],
                forall|j: int| y <= j < y + removed_rows ==> self@[j] == empty_row(w),
                self@.subrange(y + removed_rows, h) == kept_rows(rows.subrange(y as int, h)),
            decreases y,
        {
            y = y - 1;
            proof {
                lemma_kept_rows_from(rows, y as int);
            }
            let ghost before = self@;
            let full = self.row_is_full(y);
            if full {
                removed_rows = removed_rows + 1;
            } else {
                self.sink_row(y, y + removed_rows);
                assert(self@.subrange(y + removed_rows, h) =~= seq![rows[y as int]]
                    + before.subrange(y + 1 + removed_rows, h));
            }
            if removed_rows > 0 {
                self.clear_row(y);
            }
            assert(self@.subrange(y + removed_rows, h) =~= kept_rows(rows.subrange(y as int, h)));
        }
        proof {
            assert(rows.subrange(0, h) =~= rows);
            assert(self@ =~= compacted(rows, w));
        }
        removed_rows
    }
}

} // verus!
