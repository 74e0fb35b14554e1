//! What follows from the rules of the game.
//!
//! The lemmas show that what holds of a game at every moment is kept by
//! every event that the game can take, and that a game which is ready for
//! an event in the plain sense of `can_settle` and `can_run` can take it.
//! The laws say how far a piece falls, how the state of a game can change
//! and how it cannot.

use crate::geometry::{fits_i8, shifted, shifted_cells};
use crate::piece::{piece_cells, Piece, MAX_REACH};
use crate::rows::{
    compacted, full_row_count, law_nothing_full_nothing_cleared, lemma_compacted_has_no_full_row,
    lemma_compacted_keeps_width, row_full,
};
use crate::rules::{spawn_piece, GameState, GameView, Key, MAX_BOARD_SIDE};
use crate::time::TimeSpan;
use vstd::prelude::*;

verus! {

/// The origin of a piece on the board is on the board or within reach of
/// it.
pub proof fn lemma_origin_near_board(view: GameView, piece: Piece)
    requires
        view.inv(),
        view.on_board(piece),
    ensures
        -MAX_REACH <= piece.origin.x <= MAX_BOARD_SIDE + MAX_REACH - 1,
        -MAX_REACH <= piece.origin.y <= MAX_BOARD_SIDE + MAX_REACH - 1,
{
    assert(view.inside(view.cells(piece)[0]));
    assert(-MAX_REACH <= view.shapes[piece.letter][0].0 <= MAX_REACH);
}

/// A piece on the board has room around it: a piece of its letter whose
/// origin is no more than one step away has cells that `Pos` can hold,
/// however it is turned.
pub proof fn lemma_room(view: GameView, piece: Piece, near: Piece)
    requires
        view.inv(),
        view.on_board(piece),
        near.letter == piece.letter,
        -1 <= near.origin.x - piece.origin.x <= 1,
        -1 <= near.origin.y - piece.origin.y <= 1,
    ensures
        forall|k: int| 0 <= k < 4 ==> fits_i8(#[trigger] view.cells(near)[k]),
{
    lemma_origin_near_board(view, piece);
    let offsets = view.shapes[piece.letter];
    assert forall|k: int| 0 <= k < 4 implies fits_i8(#[trigger] view.cells(near)[k]) by {
        assert(-MAX_REACH <= offsets[k].0 <= MAX_REACH);
    }
}

/// Moving a piece moves its cells, as long as the origin stays a position
/// that `Pos` can hold.
pub proof fn lemma_moved_cells(view: GameView, piece: Piece, dx: int, dy: int)
    requires
        fits_i8(shifted(piece.origin@, (dx, dy))),
    ensures
        view.cells(piece.spec_moved(dx, dy)) == shifted_cells(view.cells(piece), (dx, dy)),
{
    assert(view.cells(piece.spec_moved(dx, dy)) =~= shifted_cells(view.cells(piece), (dx, dy)));
}

/// A piece on the board that is moved by one step or turned once, and does
/// not collide there, is on the board again.
pub proof fn lemma_moved_on_board(view: GameView, piece: Piece, moved: Piece)
    requires
        view.inv(),
        view.on_board(piece),
        moved == piece.spec_rotated_cw() || moved == piece.spec_moved(-1, 0) || moved
            == piece.spec_moved(1, 0) || moved == piece.spec_moved(0, 1),
        !view.collides(moved),
    ensures
        view.on_board(moved),
{
    lemma_origin_near_board(view, piece);
    assert forall|k: int| 0 <= k < 4 implies view.inside(#[trigger] view.cells(moved)[k]) by {
        assert(view.free(view.cells(moved)[k]));
    }
}

/// What holds of a game at every moment carries over to a game of the same
/// board, shapes and progress whose falling piece, if it has one, lies on
/// the board and whose next letter, if it has one, is the letter of a
/// shape. Neither the state nor the timer matter.
pub proof fn lemma_inv_carries_over(view: GameView, other: GameView)
    requires
        view.inv(),
        other.width == view.width,
        other.height == view.height,
        other.rows == view.rows,
        other.shapes == view.shapes,
        other.progress == view.progress,
        other.piece matches Some(piece) ==> view.on_board(piece),
        other.next matches Some(letter) ==> view.shapes.dom().contains(letter),
    ensures
        other.inv(),
{
    assert forall|letter: char, k: int|
        other.shapes.dom().contains(letter) && 0 <= k < 4 implies other.inside(
        #[trigger] piece_cells(other.shapes, spawn_piece(letter))[k],
    ) by {
        assert(view.inside(piece_cells(view.shapes, spawn_piece(letter))[k]));
    }
    if let Some(piece) = other.piece {
        assert forall|k: int| 0 <= k < 4 implies other.inside(#[trigger] other.cells(piece)[k]) by {
            assert(view.inside(view.cells(piece)[k]));
        }
    }
}

/// A piece on the board comes to rest somewhere: given that it can fall
/// `k` rows, a number of rows is found that it can fall and no further.
pub proof fn lemma_lands(view: GameView, piece: Piece, k: int) -> (n: int)
    requires
        view.inv(),
        view.on_board(piece),
        0 <= k,
        forall|j: int|
            1 <= j <= k ==> !view.blocked(#[trigger] shifted_cells(view.cells(piece), (0, j))),
    ensures
        k <= n,
        view.lands_after(piece, n),
        view.on_board(piece.spec_moved(0, n)),
        piece.origin.y + n <= MAX_BOARD_SIDE + MAX_REACH - 1,
    decreases MAX_BOARD_SIDE + MAX_REACH + 1 - piece.origin.y - k,
{
    lemma_origin_near_board(view, piece);
    let cells = view.cells(piece);
    assert(-MAX_REACH <= view.shapes[piece.letter][0].1 <= MAX_REACH);
    if k >= 1 {
        assert(!view.blocked(shifted_cells(cells, (0, k))));
        assert(view.free(shifted_cells(cells, (0, k))[0]));
    }
    if view.blocked(shifted_cells(cells, (0, k + 1))) {
        lemma_moved_cells(view, piece, 0, k);
        assert forall|i: int| 0 <= i < 4 implies view.inside(
            #[trigger] view.cells(piece.spec_moved(0, k))[i],
        ) by {
            if k >= 1 {
                assert(view.free(shifted_cells(cells, (0, k))[i]));
            } else {
                assert(view.inside(cells[i]));
            }
        }
        k
    } else {
        assert(view.free(shifted_cells(cells, (0, k + 1))[0]));
        assert forall|j: int| 1 <= j <= k + 1 implies !view.blocked(
            #[trigger] shifted_cells(cells, (0, j)),
        ) by {}
        lemma_lands(view, piece, k + 1)
    }
}

/// A piece on the board falls some number of rows and comes to rest on the
/// board.
pub proof fn lemma_fall_ends_on_board(view: GameView, piece: Piece)
    requires
        view.inv(),
        view.on_board(piece),
    ensures
        view.lands_after(piece, view.fall_of(piece)),
        view.on_board(piece.spec_moved(0, view.fall_of(piece))),
        view.at_rest().inv() || view.piece != Some(piece),
{
    let n = lemma_lands(view, piece, 0);
    law_fall_is_unique(view, piece, n);
    lemma_inv_carries_over(view, GameView { piece: Some(piece.spec_moved(0, n)), ..view });
}

/// Writing the falling piece into the board leaves the board its size.
pub proof fn lemma_rows_at_rest(view: GameView)
    requires
        view.inv(),
    ensures
        view.rows_at_rest().len() == view.height,
        forall|y: int|
            0 <= y < view.height ==> (#[trigger] view.rows_at_rest()[y]).len() == view.width,
        full_row_count(view.rows_at_rest()) <= view.height,
{
    if let Some(piece) = view.piece {
        let cells = view.cells(piece);
        assert(view.inside(cells[0]));
        assert(view.inside(cells[1]));
        assert(view.inside(cells[2]));
        assert(view.inside(cells[3]));
    }
}

/// Where the end of a fall can be counted whatever rows it clears, it can
/// be counted for the rows that it does clear, and brings no more levels
/// than a fall can bring at most.
pub proof fn lemma_can_settle(view: GameView)
    requires
        view.inv(),
        view.can_settle(),
    ensures
        view.settles(),
        view.progress.levels_gained(full_row_count(view.rows_at_rest()) as int)
            <= view.max_level_gain(),
{
    lemma_rows_at_rest(view);
    let per = view.progress.rows_per_level as int;
    vstd::arithmetic::div_mod::lemma_div_is_ordered(
        view.progress.level_progress + full_row_count(view.rows_at_rest()),
        per - 1 + view.height,
        per,
    );
}

/// The end of a fall keeps what holds of a game at every moment, and
/// leaves no piece falling and no row full.
pub proof fn lemma_settled_keeps_inv(view: GameView)
    requires
        view.inv(),
        view.settles(),
    ensures
        view.settled().inv(),
        view.settled().piece is None,
        forall|y: int| 0 <= y < view.height ==> !row_full(#[trigger] view.settled().rows[y]),
        view.settled().progress.level == view.progress.level + view.progress.levels_gained(
            full_row_count(view.rows_at_rest()) as int,
        ),
        view.settled().progress.rows_per_level == view.progress.rows_per_level,
{
    lemma_rows_at_rest(view);
    lemma_compacted_keeps_width(view.rows_at_rest(), view.width as nat);
    lemma_compacted_has_no_full_row(view.rows_at_rest(), view.width as nat);
    vstd::arithmetic::div_mod::lemma_mod_bound(
        view.progress.level_progress + full_row_count(view.rows_at_rest()),
        view.progress.rows_per_level as int,
    );
    vstd::arithmetic::div_mod::lemma_div_pos_is_pos(
        view.progress.level_progress + full_row_count(view.rows_at_rest()),
        view.progress.rows_per_level as int,
    );
}

/// A step of the fall that can be taken keeps what holds of a game at
/// every moment.
pub proof fn lemma_fallen_one_keeps_inv(view: GameView)
    requires
        view.inv(),
        view.falls_safely(),
    ensures
        view.fallen_one().inv(),
{
    match view.piece {
        Some(piece) if !view.collides(piece.spec_moved(0, 1)) => {
            lemma_moved_on_board(view, piece, piece.spec_moved(0, 1));
            lemma_inv_carries_over(view, view.fallen_one());
        },
        _ => {
            lemma_settled_keeps_inv(view);
        },
    }
}

/// The steps of a fall that can be paid out keep what holds of a game at
/// every moment.
pub proof fn lemma_drained_keeps_inv(view: GameView, intervals: Seq<TimeSpan>)
    requires
        view.inv(),
        view.runs(intervals),
    ensures
        view.drained(intervals).inv(),
    decreases view.timer,
{
    let interval = view.interval(intervals);
    if 0 < interval <= view.timer {
        let stepped = GameView { timer: view.timer - interval, ..view };
        lemma_inv_carries_over(view, stepped);
        lemma_fallen_one_keeps_inv(stepped);
        lemma_drained_keeps_inv(stepped.fallen_one(), intervals);
    }
}

/// The time can be paid out from here, given that each level from `first`
/// to `last` has a positive interval, that the game is at one of them and
/// that the end of a fall brings it no further than `last`; and given that
/// the game is at `first`, or else has no piece falling and no row full.
proof fn lemma_runs_between(view: GameView, intervals: Seq<TimeSpan>, first: int, last: int)
    requires
        view.inv(),
        view.progress.rows_per_level + view.height <= u8::MAX + 1,
        first <= view.progress.level <= last <= u8::MAX,
        last == first + view.max_level_gain(),
        forall|level: int| first <= level <= last ==> (#[trigger] intervals[level]).nanos > 0,
        view.progress.level == first || (view.piece is None && forall|y: int|
            0 <= y < view.height ==> !row_full(#[trigger] view.rows[y])),
    ensures
        view.runs(intervals),
    decreases view.timer,
{
    let interval = view.interval(intervals);
    assert(intervals[view.progress.level as int].nanos > 0);
    if interval <= view.timer {
        let stepped = GameView { timer: view.timer - interval, ..view };
        lemma_inv_carries_over(view, stepped);
        let settling = match stepped.piece {
            Some(piece) if !stepped.collides(piece.spec_moved(0, 1)) => false,
            _ => true,
        };
        if settling {
            if view.progress.level == first {
                lemma_can_settle(stepped);
            } else {
                law_nothing_full_nothing_cleared(stepped.rows, stepped.width as nat);
                vstd::arithmetic::div_mod::lemma_basic_div(
                    stepped.progress.level_progress as int,
                    stepped.progress.rows_per_level as int,
                );
            }
            lemma_settled_keeps_inv(stepped);
        }
        lemma_fallen_one_keeps_inv(stepped);
        lemma_runs_between(stepped.fallen_one(), intervals, first, last);
    }
}

/// Where the gathered time can be paid out whatever the falling piece
/// meets, it can be paid out.
pub proof fn lemma_can_run(view: GameView, intervals: Seq<TimeSpan>)
    requires
        view.inv(),
        view.can_run(intervals),
    ensures
        view.runs(intervals),
{
    lemma_runs_between(
        view,
        intervals,
        view.progress.level as int,
        view.progress.level + view.max_level_gain(),
    );
}

/// Where the end of a fall can be counted whatever rows it clears, the key
/// D can be taken; every other key can be taken anyway.
pub proof fn lemma_can_take_key(view: GameView, key: Key, pressed: bool)
    requires
        view.inv(),
        view.can_settle() || !(pressed && key == Key::KeyD),
    ensures
        view.takes_key(key, pressed),
{
    if pressed && key == Key::KeyD {
        if let Some(piece) = view.piece {
            lemma_fall_ends_on_board(view, piece);
        }
        lemma_can_settle(view.at_rest());
    }
}

/// A piece comes to rest in one place only: if it can fall `n` rows and no
/// further, then `n` is how far it falls.
pub proof fn law_fall_is_unique(view: GameView, piece: Piece, n: int)
    requires
        view.lands_after(piece, n),
    ensures
        view.fall_of(piece) == n,
{
    let chosen = view.fall_of(piece);
    assert(view.lands_after(piece, chosen));
    if chosen < n {
        assert(!view.blocked(shifted_cells(view.cells(piece), (0, chosen + 1))));
    } else if n < chosen {
        assert(!view.blocked(shifted_cells(view.cells(piece), (0, n + 1))));
    }
}

/// The key D writes the falling piece into the board `n` rows lower, where
/// `n` rows is as far as it can fall, and clears and counts the rows that
/// this fills, all at once. No piece is left falling.
pub proof fn law_hard_drop_locks_at_the_lowest_place(view: GameView, piece: Piece, n: int)
    requires
        view.piece == Some(piece),
        view.lands_after(piece, n),
    ensures
        view.after_key(Key::KeyD, true).piece is None,
        view.after_key(Key::KeyD, true).rows == compacted(
            view.with_locked(piece.spec_moved(0, n)),
            view.width as nat,
        ),
        view.after_key(Key::KeyD, true).progress == view.progress.with_rows(
            full_row_count(view.with_locked(piece.spec_moved(0, n))) as int,
        ),
        view.after_key(Key::KeyD, true).state == view.state,
        view.after_key(Key::KeyD, true).timer == view.timer,
{
    law_fall_is_unique(view, piece, n);
}

/// The steps of a fall change neither the state of the game nor its
/// shapes, the size of its board or the letter that comes next.
pub proof fn lemma_drained_keeps(view: GameView, intervals: Seq<TimeSpan>)
    ensures
        view.drained(intervals).state == view.state,
        view.drained(intervals).shapes == view.shapes,
        view.drained(intervals).width == view.width,
        view.drained(intervals).height == view.height,
        view.drained(intervals).next == view.next,
    decreases view.timer,
{
    let interval = view.interval(intervals);
    if 0 < interval <= view.timer {
        lemma_drained_keeps(
            (GameView { timer: view.timer - interval, ..view }).fallen_one(),
            intervals,
        );
    }
}

/// The board keeps its size and the shapes stay what they are, whatever
/// key, change of focus or passing of time comes.
pub proof fn law_size_and_shapes_stay(
    view: GameView,
    key: Key,
    pressed: bool,
    focused: bool,
    elapsed: int,
    intervals: Seq<TimeSpan>,
    drawn: char,
)
    ensures
        view.after_key(key, pressed).width == view.width,
        view.after_key(key, pressed).height == view.height,
        view.after_key(key, pressed).shapes == view.shapes,
        view.after_focus(focused).width == view.width,
        view.after_focus(focused).height == view.height,
        view.after_focus(focused).shapes == view.shapes,
        view.after_update(elapsed, intervals, drawn).width == view.width,
        view.after_update(elapsed, intervals, drawn).height == view.height,
        view.after_update(elapsed, intervals, drawn).shapes == view.shapes,
{
    lemma_drained_keeps(view.gathered(elapsed), intervals);
}

/// A game that has not started waits for Space: no other key, no change of
/// focus and no passing of time changes anything but the falling piece,
/// which the arrows and D still move.
pub proof fn law_only_space_starts(
    view: GameView,
    key: Key,
    pressed: bool,
    focused: bool,
    elapsed: int,
    intervals: Seq<TimeSpan>,
    drawn: char,
)
    requires
        view.state == GameState::NotStarted,
    ensures
        view.after_key(key, pressed).state == if pressed && key == Key::Space {
            GameState::Running
        } else {
            GameState::NotStarted
        },
        view.after_focus(focused) == view,
        view.after_update(elapsed, intervals, drawn) == view,
{
}

/// A game that has started never goes back to `NotStarted`.
pub proof fn law_started_stays_started(
    view: GameView,
    key: Key,
    pressed: bool,
    focused: bool,
    elapsed: int,
    intervals: Seq<TimeSpan>,
    drawn: char,
)
    requires
        view.state != GameState::NotStarted,
    ensures
        view.after_key(key, pressed).state != GameState::NotStarted,
        view.after_focus(focused).state != GameState::NotStarted,
        view.after_update(elapsed, intervals, drawn).state != GameState::NotStarted,
{
    lemma_drained_keeps((GameView { timer: view.timer + elapsed, ..view }), intervals);
}

/// A game that is over stays over, whatever key, change of focus or passing
/// of time comes; and time changes nothing of it any more.
pub proof fn law_game_over_is_final(
    view: GameView,
    key: Key,
    pressed: bool,
    focused: bool,
    elapsed: int,
    intervals: Seq<TimeSpan>,
    drawn: char,
)
    requires
        view.state == GameState::GameOver,
    ensures
        view.after_key(key, pressed).state == GameState::GameOver,
        view.after_focus(focused) == view,
        view.after_update(elapsed, intervals, drawn) == view,
{
}

/// Only time ends a game, and only a running one; only Escape, P and the
/// loss of the focus pause one, and only Escape and P wake it.
pub proof fn law_state_changes(
    view: GameView,
    key: Key,
    pressed: bool,
    focused: bool,
    elapsed: int,
    intervals: Seq<TimeSpan>,
    drawn: char,
)
    ensures
        view.after_key(key, pressed).state == GameState::GameOver ==> view.state
            == GameState::GameOver,
        view.after_focus(focused).state == GameState::GameOver ==> view.state
            == GameState::GameOver,
        view.after_update(elapsed, intervals, drawn).state == view.state || (view.state
            == GameState::Running && view.after_update(elapsed, intervals, drawn).state
            == GameState::GameOver),
        view.after_key(key, pressed).state == GameState::Paused && view.state
            != GameState::Paused ==> view.state == GameState::Running && pressed && (key
            == Key::Escape || key == Key::KeyP),
        view.after_focus(focused).state == GameState::Paused && view.state != GameState::Paused
            ==> view.state == GameState::Running && !focused,
        view.state == GameState::Paused && view.after_key(key, pressed).state
            != GameState::Paused ==> view.after_key(key, pressed).state == GameState::Running
            && pressed && (key == Key::Escape || key == Key::KeyP),
        view.state == GameState::Paused ==> view.after_focus(focused) == view,
{
    lemma_drained_keeps((GameView { timer: view.timer + elapsed, ..view }), intervals);
}

/// A key that can be taken keeps what holds of a game at every moment.
pub proof fn law_key_keeps_inv(view: GameView, key: Key, pressed: bool)
    requires
        view.inv(),
        view.takes_key(key, pressed),
    ensures
        view.after_key(key, pressed).inv(),
{
    let after = view.after_key(key, pressed);
    if pressed && key == Key::KeyD {
        if let Some(piece) = view.piece {
            lemma_fall_ends_on_board(view, piece);
        }
        lemma_settled_keeps_inv(view.at_rest());
    } else {
        if let Some(piece) = after.piece {
            if view.piece != Some(piece) {
                lemma_moved_on_board(view, view.piece->0, piece);
            }
        }
        lemma_inv_carries_over(view, after);
    }
}

/// The window's gaining or losing the focus keeps what holds of a game at
/// every moment.
pub proof fn law_focus_keeps_inv(view: GameView, focused: bool)
    requires
        view.inv(),
    ensures
        view.after_focus(focused).inv(),
{
    lemma_inv_carries_over(view, view.after_focus(focused));
}

/// Time that can be taken keeps what holds of a game at every moment,
/// whatever letter of a shape is drawn.
pub proof fn law_time_keeps_inv(
    view: GameView,
    elapsed: int,
    intervals: Seq<TimeSpan>,
    drawn: char,
)
    requires
        view.inv(),
        view.takes_time(elapsed, intervals),
        view.shapes.dom().contains(drawn),
    ensures
        view.after_update(elapsed, intervals, drawn).inv(),
{
    if view.state == GameState::Running {
        let gathered = view.gathered(elapsed);
        lemma_inv_carries_over(view, gathered);
        lemma_drained_keeps_inv(gathered, intervals);
        lemma_drained_keeps(gathered, intervals);
        let drained = gathered.drained(intervals);
        let spawned = drained.spawned();
        if let (None, Some(letter)) = (drained.piece, drained.next) {
            assert forall|k: int| 0 <= k < 4 implies drained.inside(
                #[trigger] drained.cells(spawn_piece(letter))[k],
            ) by {
                assert(drained.inside(piece_cells(drained.shapes, spawn_piece(letter))[k]));
            }
        }
        lemma_inv_carries_over(drained, spawned);
        lemma_inv_carries_over(spawned, spawned.refilled(drawn));
    }
}

} // verus!
