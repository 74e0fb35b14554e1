//! Levels, and the rows that earn them.

use vstd::arithmetic::div_mod::lemma_fundamental_div_mod_converse;
use vstd::prelude::*;

verus! {

/// How far the player has come: the level reached, and the rows cleared
/// towards the next one.
pub struct GameProgress {
    /// The level at which the game is won.
    pub levels_to_win: u8,
    /// The level reached so far.
    pub level: u8,
    /// How many cleared rows make one level.
    pub rows_per_level: u8,
    /// The rows cleared since the last level was reached.
    pub level_progress: u8,
}

impl GameProgress {
    /// A level costs at least one row, and fewer rows than a level costs
    /// are waiting to be counted.
    pub open spec fn wf(&self) -> bool {
        0 < self.rows_per_level && self.level_progress < self.rows_per_level
    }

    /// The levels that `count` more rows bring.
    pub open spec fn levels_gained(&self, count: int) -> int {
        (self.level_progress + count) / (self.rows_per_level as int)
    }

    /// The progress after `count` more rows: one level for every
    /// `rows_per_level` rows that have come together, and the rest kept
    /// towards the next.
    pub open spec fn with_rows(self, count: int) -> GameProgress {
        GameProgress {
            levels_to_win: self.levels_to_win,
            level: (self.level + self.levels_gained(count)) as u8,
            rows_per_level: self.rows_per_level,
            level_progress: ((self.level_progress + count) % (self.rows_per_level as int)) as u8,
        }
    }

    pub fn new(levels_to_win: u8, rows_per_level: u8) -> (progress: GameProgress)
        ensures
            progress.levels_to_win == levels_to_win,
            progress.rows_per_level == rows_per_level,
            progress.level == 0,
            progress.level_progress == 0,
    {
        GameProgress { levels_to_win, level: 0, rows_per_level, level_progress: 0 }
    }

    /// Counts `count` cleared rows, and moves up one level for every
    /// `rows_per_level` rows that have come together.
    pub fn add_rows(&mut self, count: u8)
        requires
            old(self).rows_per_level > 0,
            old(self).level_progress + count <= u8::MAX,
            old(self).level + old(self).levels_gained(count as int) <= u8::MAX,
        ensures
            final(self).wf(),
            *final(self) == old(self).with_rows(count as int),
            final(self).level == old(self).level + old(self).levels_gained(count as int),
            final(self).level_progress == (old(self).level_progress + count) % (old(
                self,
            ).rows_per_level as int),
    {
        let ghost total: int = self.level_progress + count;
        let ghost start: int = self.level as int;
        let ghost per: int = self.rows_per_level as int;
        self.level_progress = self.level_progress + count;
        while self.level_progress >= self.rows_per_level
            invariant
                self.rows_per_level == per,
                per > 0,
                self.levels_to_win == old(self).levels_to_win,
                start <= self.level,
                (self.level - start) * per + self.level_progress == total,
                start + total / per <= u8::MAX,
            decreases self.level_progress,
        {
            assert(self.level - start + 1 <= total / per) by (nonlinear_arith)
                requires
                    (self.level - start) * per + self.level_progress == total,
                    self.level_progress >= per,
                    per > 0,
            ;
            assert((self.level + 1 - start) * per + (self.level_progress - per) == total)
                by (nonlinear_arith)
                requires
                    (self.level - start) * per + self.level_progress == total,
            ;
            self.level_progress = self.level_progress - self.rows_per_level;
            self.level = self.level + 1;
        }
        proof {
            lemma_fundamental_div_mod_converse(
                total,
                per,
                self.level - start,
                self.level_progress as int,
            );
        }
    }
}

} // verus!
