use blockfall::game::{Game, GameState, Key};
use blockfall::geometry::Pos;
use blockfall::piece::Piece;
use blockfall::scene::{banner, outline_offsets};
use blockfall::time::TimeSpan;

fn every_level(millis: i64) -> [TimeSpan; 256] {
    [TimeSpan::milliseconds(millis); 256]
}

fn running_game() -> Game {
    let mut game = Game::default();
    game.handle_key(Key::Space, true);
    game
}

fn shown(game: &Game) -> Vec<String> {
    game.board
        .tiles
        .iter()
        .map(|row| row.iter().map(|&c| if c == '\0' { '.' } else { c }).collect())
        .collect()
}

fn fill_row_except(game: &mut Game, y: i8, gaps: &[i8], tile: char) {
    for x in 0..game.board.width as i8 {
        if !gaps.contains(&x) {
            game.board.set_tile(Pos::new(x, y), tile);
        }
    }
}

fn sine_intervals(levels_to_win: u8) -> [TimeSpan; 256] {
    let mut table = [TimeSpan::zero(); 256];
    for level in 0..256usize {
        let progress = level as f32 / levels_to_win as f32;
        let speed_up = (progress * std::f32::consts::PI / 2.0).sin();
        table[level] = TimeSpan::milliseconds(((1.0 - speed_up) * 800.0) as i64);
    }
    table
}

#[test]
fn default_game_has_not_started() {
    let game = Game::default();
    assert_eq!(game.state, GameState::NotStarted);
    assert_eq!(game.board.width, 10);
    assert_eq!(game.board.height, 20);
    assert_eq!(shown(&game), vec!["..........".to_string(); 20]);
    assert!(game.moving_piece.is_none());
    assert!(game.next_shape.is_none());
    assert_eq!(game.moving_piece_timer.time, TimeSpan::zero());
    assert_eq!(game.progress.level, 0);
    assert_eq!(game.progress.level_progress, 0);
    assert_eq!(game.progress.levels_to_win, 60);
    assert_eq!(game.progress.rows_per_level, 10);
    assert_eq!(game.shapes.letters(), vec!['O', 'I', 'J', 'L', 'Z', 'S', 'T']);
}

#[test]
fn space_starts_the_game() {
    let mut game = Game::default();
    game.handle_key(Key::Space, true);
    assert_eq!(game.state, GameState::Running);
}

#[test]
fn a_key_that_comes_up_does_nothing() {
    let mut game = Game::default();
    game.handle_key(Key::Space, false);
    assert_eq!(game.state, GameState::NotStarted);
    let mut game = running_game();
    game.moving_piece = Some(Piece::new('O', 0, Pos::new(4, 1)));
    for key in [Key::Escape, Key::KeyP, Key::ArrowUp, Key::ArrowLeft, Key::ArrowDown, Key::ArrowRight, Key::KeyD] {
        game.handle_key(key, false);
    }
    assert_eq!(game.state, GameState::Running);
    assert_eq!(game.moving_piece, Some(Piece::new('O', 0, Pos::new(4, 1))));
    assert_eq!(shown(&game), vec!["..........".to_string(); 20]);
}

#[test]
fn space_starts_only_a_game_that_has_not_started() {
    let mut game = running_game();
    game.handle_key(Key::Space, true);
    assert_eq!(game.state, GameState::Running);
    game.state = GameState::Paused;
    game.handle_key(Key::Space, true);
    assert_eq!(game.state, GameState::Paused);
    game.state = GameState::GameOver;
    game.handle_key(Key::Space, true);
    assert_eq!(game.state, GameState::GameOver);
}

#[test]
fn escape_and_p_toggle_between_running_and_paused() {
    for key in [Key::Escape, Key::KeyP] {
        let mut game = running_game();
        game.handle_key(key, true);
        assert_eq!(game.state, GameState::Paused);
        game.handle_key(key, true);
        assert_eq!(game.state, GameState::Running);
    }
}

#[test]
fn escape_and_p_leave_the_other_states_alone() {
    for key in [Key::Escape, Key::KeyP] {
        let mut game = Game::default();
        game.handle_key(key, true);
        assert_eq!(game.state, GameState::NotStarted);
        game.state = GameState::GameOver;
        game.handle_key(key, true);
        assert_eq!(game.state, GameState::GameOver);
    }
}

#[test]
fn other_keys_do_nothing() {
    let mut game = running_game();
    game.moving_piece = Some(Piece::new('T', 1, Pos::new(4, 5)));
    game.handle_key(Key::Other, true);
    assert_eq!(game.state, GameState::Running);
    assert_eq!(game.moving_piece, Some(Piece::new('T', 1, Pos::new(4, 5))));
}

#[test]
fn losing_the_focus_pauses_a_running_game() {
    let mut game = running_game();
    game.on_focus_changed(true);
    assert_eq!(game.state, GameState::Running);
    game.on_focus_changed(false);
    assert_eq!(game.state, GameState::Paused);
    game.on_focus_changed(true);
    assert_eq!(game.state, GameState::Paused);
}

#[test]
fn losing_the_focus_changes_no_other_state() {
    let mut game = Game::default();
    game.on_focus_changed(false);
    assert_eq!(game.state, GameState::NotStarted);
    game.state = GameState::GameOver;
    game.on_focus_changed(false);
    assert_eq!(game.state, GameState::GameOver);
}

#[test]
fn arrows_move_the_piece_by_one_cell() {
    let mut game = running_game();
    game.moving_piece = Some(Piece::new('O', 0, Pos::new(4, 1)));
    game.handle_key(Key::ArrowLeft, true);
    assert_eq!(game.moving_piece, Some(Piece::new('O', 0, Pos::new(3, 1))));
    game.handle_key(Key::ArrowRight, true);
    game.handle_key(Key::ArrowRight, true);
    assert_eq!(game.moving_piece, Some(Piece::new('O', 0, Pos::new(5, 1))));
    game.handle_key(Key::ArrowDown, true);
    assert_eq!(game.moving_piece, Some(Piece::new('O', 0, Pos::new(5, 2))));
}

#[test]
fn arrows_stop_at_the_walls_and_the_floor() {
    let mut game = running_game();
    game.moving_piece = Some(Piece::new('O', 0, Pos::new(4, 1)));
    for _ in 0..10 {
        game.handle_key(Key::ArrowLeft, true);
    }
    assert_eq!(game.moving_piece, Some(Piece::new('O', 0, Pos::new(0, 1))));
    for _ in 0..20 {
        game.handle_key(Key::ArrowRight, true);
    }
    assert_eq!(game.moving_piece, Some(Piece::new('O', 0, Pos::new(8, 1))));
    for _ in 0..30 {
        game.handle_key(Key::ArrowDown, true);
    }
    assert_eq!(game.moving_piece, Some(Piece::new('O', 0, Pos::new(8, 19))));
    assert_eq!(shown(&game), vec!["..........".to_string(); 20]);
}

#[test]
fn arrows_stop_at_locked_tiles() {
    let mut game = running_game();
    game.board.set_tile(Pos::new(3, 1), 'Z');
    game.board.set_tile(Pos::new(6, 0), 'Z');
    game.board.set_tile(Pos::new(5, 2), 'Z');
    game.moving_piece = Some(Piece::new('O', 0, Pos::new(4, 1)));
    game.handle_key(Key::ArrowLeft, true);
    game.handle_key(Key::ArrowRight, true);
    game.handle_key(Key::ArrowDown, true);
    assert_eq!(game.moving_piece, Some(Piece::new('O', 0, Pos::new(4, 1))));
}

#[test]
fn up_turns_the_piece() {
    let mut game = running_game();
    game.moving_piece = Some(Piece::new('I', 0, Pos::new(4, 5)));
    game.handle_key(Key::ArrowUp, true);
    assert_eq!(game.moving_piece, Some(Piece::new('I', 1, Pos::new(4, 5))));
    game.handle_key(Key::ArrowUp, true);
    game.handle_key(Key::ArrowUp, true);
    assert_eq!(game.moving_piece, Some(Piece::new('I', 3, Pos::new(4, 5))));
    game.handle_key(Key::ArrowUp, true);
    assert_eq!(game.moving_piece, Some(Piece::new('I', 0, Pos::new(4, 5))));
}

#[test]
fn up_does_not_turn_a_piece_out_of_the_top() {
    let mut game = running_game();
    game.moving_piece = Some(Piece::new('I', 1, Pos::new(4, 1)));
    game.handle_key(Key::ArrowUp, true);
    assert_eq!(game.moving_piece, Some(Piece::new('I', 1, Pos::new(4, 1))));
}

#[test]
fn up_does_not_turn_a_piece_into_a_wall() {
    let mut game = running_game();
    game.moving_piece = Some(Piece::new('I', 0, Pos::new(0, 1)));
    game.handle_key(Key::ArrowUp, true);
    assert_eq!(game.moving_piece, Some(Piece::new('I', 0, Pos::new(0, 1))));
}

#[test]
fn up_does_not_turn_a_piece_into_a_tile() {
    let mut game = running_game();
    game.board.set_tile(Pos::new(2, 1), 'S');
    game.moving_piece = Some(Piece::new('I', 0, Pos::new(4, 1)));
    game.handle_key(Key::ArrowUp, true);
    assert_eq!(game.moving_piece, Some(Piece::new('I', 0, Pos::new(4, 1))));
}

#[test]
fn keys_without_a_piece_move_nothing() {
    let mut game = running_game();
    for key in [Key::ArrowUp, Key::ArrowLeft, Key::ArrowDown, Key::ArrowRight, Key::KeyD] {
        game.handle_key(key, true);
    }
    assert!(game.moving_piece.is_none());
    assert_eq!(shown(&game), vec!["..........".to_string(); 20]);
    assert_eq!(game.progress.level_progress, 0);
}

#[test]
fn arrows_move_the_piece_of_a_paused_game_too() {
    let mut game = running_game();
    game.moving_piece = Some(Piece::new('O', 0, Pos::new(4, 1)));
    game.handle_key(Key::KeyP, true);
    game.handle_key(Key::ArrowLeft, true);
    assert_eq!(game.state, GameState::Paused);
    assert_eq!(game.moving_piece, Some(Piece::new('O', 0, Pos::new(3, 1))));
}

#[test]
fn landed_is_the_lowest_place_the_piece_can_fall_to() {
    let mut game = running_game();
    let piece = Piece::new('O', 0, Pos::new(4, 1));
    assert_eq!(game.landed(piece), Piece::new('O', 0, Pos::new(4, 19)));
    game.board.set_tile(Pos::new(5, 10), 'J');
    assert_eq!(game.landed(piece), Piece::new('O', 0, Pos::new(4, 9)));
    let upright = Piece::new('I', 0, Pos::new(0, 1));
    assert_eq!(game.landed(upright), Piece::new('I', 0, Pos::new(0, 17)));
    let resting = Piece::new('O', 0, Pos::new(4, 9));
    assert_eq!(game.landed(resting), resting);
}

#[test]
fn hard_drop_locks_the_piece_on_the_floor() {
    let mut game = running_game();
    game.moving_piece = Some(Piece::new('T', 0, Pos::new(4, 1)));
    game.handle_key(Key::KeyD, true);
    assert!(game.moving_piece.is_none());
    let rows = shown(&game);
    assert_eq!(rows[17], "....T.....");
    assert_eq!(rows[18], "....TT....");
    assert_eq!(rows[19], "....T.....");
    for row in &rows[..17] {
        assert_eq!(row, "..........");
    }
    assert_eq!(game.progress.level_progress, 0);
    assert_eq!(game.state, GameState::Running);
}

#[test]
fn hard_drop_locks_the_piece_on_the_stack() {
    let mut game = running_game();
    game.board.set_tile(Pos::new(4, 15), 'Z');
    game.moving_piece = Some(Piece::new('O', 0, Pos::new(4, 1)));
    game.handle_key(Key::KeyD, true);
    let rows = shown(&game);
    assert_eq!(rows[13], "....OO....");
    assert_eq!(rows[14], "....OO....");
    assert_eq!(rows[15], "....Z.....");
    assert!(game.moving_piece.is_none());
}

#[test]
fn hard_drop_clears_the_rows_it_fills_at_once() {
    let mut game = running_game();
    fill_row_except(&mut game, 19, &[4, 5], 'J');
    game.board.set_tile(Pos::new(0, 18), 'L');
    game.moving_piece = Some(Piece::new('O', 0, Pos::new(4, 1)));
    game.handle_key(Key::KeyD, true);
    assert!(game.moving_piece.is_none());
    let rows = shown(&game);
    assert_eq!(rows[19], "L...OO....");
    for row in &rows[..19] {
        assert_eq!(row, "..........");
    }
    assert_eq!(game.progress.level, 0);
    assert_eq!(game.progress.level_progress, 1);
}

#[test]
fn hard_drop_counts_rows_towards_the_level() {
    let mut game = running_game();
    game.progress.level_progress = 9;
    fill_row_except(&mut game, 18, &[4, 5], 'J');
    fill_row_except(&mut game, 19, &[4, 5], 'J');
    game.board.set_tile(Pos::new(9, 17), 'S');
    game.moving_piece = Some(Piece::new('O', 0, Pos::new(4, 1)));
    game.handle_key(Key::KeyD, true);
    let rows = shown(&game);
    assert_eq!(rows[19], ".........S");
    for row in &rows[..19] {
        assert_eq!(row, "..........");
    }
    assert_eq!(game.progress.level, 1);
    assert_eq!(game.progress.level_progress, 1);
}

#[test]
fn piece_collides_off_the_board_and_on_tiles() {
    let mut game = Game::default();
    // The cells of O are its origin, the cell right of it and the two above those.
    assert!(!game.piece_collides(Piece::new('O', 0, Pos::new(4, 1))));
    assert!(!game.piece_collides(Piece::new('O', 0, Pos::new(0, 1))));
    assert!(!game.piece_collides(Piece::new('O', 0, Pos::new(8, 19))));
    assert!(game.piece_collides(Piece::new('O', 0, Pos::new(-1, 1))));
    assert!(game.piece_collides(Piece::new('O', 0, Pos::new(9, 1))));
    assert!(game.piece_collides(Piece::new('O', 0, Pos::new(4, 0))));
    assert!(game.piece_collides(Piece::new('O', 0, Pos::new(4, 20))));
    assert!(game.piece_collides(Piece::new('O', 0, Pos::new(-5, -5))));
    assert!(game.piece_collides(Piece::new('O', 0, Pos::new(100, 100))));
    game.board.set_tile(Pos::new(5, 0), 'I');
    assert!(game.piece_collides(Piece::new('O', 0, Pos::new(4, 1))));
    assert!(game.piece_collides(Piece::new('O', 0, Pos::new(5, 1))));
    assert!(!game.piece_collides(Piece::new('O', 0, Pos::new(6, 1))));
    assert!(!game.piece_collides(Piece::new('O', 0, Pos::new(4, 2))));
    game.board.clear_tile(Pos::new(5, 0));
    assert!(!game.piece_collides(Piece::new('O', 0, Pos::new(4, 1))));
}

#[test]
fn piece_collides_looks_at_the_turned_piece() {
    let game = Game::default();
    assert!(!game.piece_collides(Piece::new('I', 0, Pos::new(0, 1))));
    assert!(game.piece_collides(Piece::new('I', 1, Pos::new(0, 1))));
    assert!(!game.piece_collides(Piece::new('I', 1, Pos::new(2, 0))));
    assert!(game.piece_collides(Piece::new('I', 0, Pos::new(2, 0))));
}

#[test]
fn update_leaves_a_game_alone_that_is_not_running() {
    let intervals = every_level(800);
    for state in [GameState::NotStarted, GameState::Paused, GameState::GameOver] {
        let mut game = Game::default();
        game.state = state;
        game.moving_piece = Some(Piece::new('O', 0, Pos::new(4, 1)));
        game.update(TimeSpan::milliseconds(5000), &intervals);
        game.update_with(TimeSpan::milliseconds(5000), &intervals, 'I');
        assert_eq!(game.state, state);
        assert_eq!(game.moving_piece, Some(Piece::new('O', 0, Pos::new(4, 1))));
        assert_eq!(game.moving_piece_timer.time, TimeSpan::zero());
        assert!(game.next_shape.is_none());
    }
}

#[test]
fn update_draws_a_letter_of_the_table() {
    for _ in 0..50 {
        let mut game = running_game();
        game.update(TimeSpan::milliseconds(10), &every_level(800));
        let letter = game.next_shape.unwrap();
        assert!(['O', 'I', 'J', 'L', 'Z', 'S', 'T'].contains(&letter));
        assert!(game.moving_piece.is_none());
        game.update(TimeSpan::milliseconds(10), &every_level(800));
        assert_eq!(game.moving_piece, Some(Piece::new(letter, 0, Pos::new(4, 1))));
        assert!(game.next_shape.is_some());
    }
}

#[test]
fn update_with_draws_first_and_spawns_on_the_next_call() {
    let intervals = every_level(800);
    let mut game = running_game();
    game.update_with(TimeSpan::milliseconds(10), &intervals, 'T');
    assert!(game.moving_piece.is_none());
    assert_eq!(game.next_shape, Some('T'));
    assert_eq!(game.moving_piece_timer.time, TimeSpan::milliseconds(10));
    game.update_with(TimeSpan::milliseconds(10), &intervals, 'S');
    assert_eq!(game.moving_piece, Some(Piece::new('T', 0, Pos::new(4, 1))));
    assert_eq!(game.next_shape, Some('S'));
    assert_eq!(game.moving_piece_timer.time, TimeSpan::zero());
    assert_eq!(game.state, GameState::Running);
}

#[test]
fn update_keeps_a_letter_that_is_already_drawn() {
    let mut game = running_game();
    game.moving_piece = Some(Piece::new('O', 0, Pos::new(4, 1)));
    game.next_shape = Some('I');
    game.update_with(TimeSpan::milliseconds(10), &every_level(800), 'T');
    assert_eq!(game.next_shape, Some('I'));
    game.update(TimeSpan::milliseconds(10), &every_level(800));
    assert_eq!(game.next_shape, Some('I'));
}

#[test]
fn update_moves_the_piece_down_once_per_interval() {
    let mut game = running_game();
    game.moving_piece = Some(Piece::new('O', 0, Pos::new(4, 1)));
    game.next_shape = Some('I');
    game.update_with(TimeSpan::milliseconds(1700), &every_level(800), 'T');
    assert_eq!(game.moving_piece, Some(Piece::new('O', 0, Pos::new(4, 3))));
    assert_eq!(game.moving_piece_timer.time, TimeSpan::milliseconds(100));
    game.update_with(TimeSpan::milliseconds(699), &every_level(800), 'T');
    assert_eq!(game.moving_piece, Some(Piece::new('O', 0, Pos::new(4, 3))));
    assert_eq!(game.moving_piece_timer.time, TimeSpan::milliseconds(799));
    game.update_with(TimeSpan::new(0, 1_000_000), &every_level(800), 'T');
    assert_eq!(game.moving_piece, Some(Piece::new('O', 0, Pos::new(4, 4))));
    assert_eq!(game.moving_piece_timer.time, TimeSpan::zero());
}

#[test]
fn update_takes_the_interval_of_the_level() {
    let mut intervals = every_level(800);
    intervals[3] = TimeSpan::milliseconds(100);
    let mut game = running_game();
    game.progress.level = 3;
    game.moving_piece = Some(Piece::new('O', 0, Pos::new(4, 1)));
    game.next_shape = Some('I');
    assert_eq!(game.time_between_moves(&intervals), TimeSpan::milliseconds(100));
    game.update_with(TimeSpan::milliseconds(250), &intervals, 'T');
    assert_eq!(game.moving_piece, Some(Piece::new('O', 0, Pos::new(4, 3))));
    assert_eq!(game.moving_piece_timer.time, TimeSpan::milliseconds(50));
}

#[test]
fn update_locks_a_piece_that_cannot_fall_and_spawns_the_next() {
    let mut game = running_game();
    game.moving_piece = Some(Piece::new('O', 0, Pos::new(4, 19)));
    game.next_shape = Some('I');
    game.update_with(TimeSpan::milliseconds(900), &every_level(800), 'T');
    let rows = shown(&game);
    assert_eq!(rows[18], "....OO....");
    assert_eq!(rows[19], "....OO....");
    assert_eq!(game.moving_piece, Some(Piece::new('I', 0, Pos::new(4, 1))));
    assert_eq!(game.next_shape, Some('T'));
    assert_eq!(game.moving_piece_timer.time, TimeSpan::zero());
    assert_eq!(game.state, GameState::Running);
}

#[test]
fn update_clears_rows_and_looks_the_interval_up_anew() {
    let mut intervals = every_level(800);
    intervals[1] = TimeSpan::milliseconds(100);
    let mut game = running_game();
    game.progress.level_progress = 9;
    fill_row_except(&mut game, 18, &[4, 5], 'J');
    fill_row_except(&mut game, 19, &[4, 5], 'J');
    game.moving_piece = Some(Piece::new('O', 0, Pos::new(4, 19)));
    game.update_with(TimeSpan::milliseconds(1050), &intervals, 'T');
    assert_eq!(shown(&game), vec!["..........".to_string(); 20]);
    assert_eq!(game.progress.level, 1);
    assert_eq!(game.progress.level_progress, 1);
    assert!(game.moving_piece.is_none());
    assert_eq!(game.next_shape, Some('T'));
    // 1050 ms pay for one step of 800 ms and, a level higher, two of 100 ms.
    assert_eq!(game.moving_piece_timer.time, TimeSpan::milliseconds(50));
}

#[test]
fn update_ends_the_game_when_the_new_piece_collides() {
    let mut game = running_game();
    game.board.set_tile(Pos::new(4, 1), 'Z');
    game.next_shape = Some('O');
    game.moving_piece_timer.advance(TimeSpan::milliseconds(300));
    game.update_with(TimeSpan::milliseconds(10), &every_level(800), 'T');
    assert_eq!(game.state, GameState::GameOver);
    assert_eq!(game.moving_piece, Some(Piece::new('O', 0, Pos::new(4, 1))));
    assert_eq!(game.next_shape, Some('T'));
    assert_eq!(game.moving_piece_timer.time, TimeSpan::zero());
    game.update_with(TimeSpan::milliseconds(5000), &every_level(800), 'S');
    assert_eq!(game.state, GameState::GameOver);
    assert_eq!(game.moving_piece, Some(Piece::new('O', 0, Pos::new(4, 1))));
    assert_eq!(game.moving_piece_timer.time, TimeSpan::zero());
}

#[test]
fn a_game_of_squares_ends_when_the_stack_reaches_the_spawn_row() {
    let intervals = every_level(800);
    let mut game = Game::default();
    assert_eq!(game.state, GameState::NotStarted);
    game.handle_key(Key::Space, true);
    assert_eq!(game.state, GameState::Running);
    let long = TimeSpan::milliseconds(20_000);
    game.update_with(long, &intervals, 'O');
    assert!(game.moving_piece.is_none());
    game.update_with(long, &intervals, 'O');
    assert_eq!(game.moving_piece, Some(Piece::new('O', 0, Pos::new(4, 1))));
    game.update_with(long, &intervals, 'O');
    assert_eq!(shown(&game)[19], "....OO....");
    assert_eq!(shown(&game)[18], "....OO....");
    assert_eq!(shown(&game)[17], "..........");
    assert_eq!(game.moving_piece, Some(Piece::new('O', 0, Pos::new(4, 1))));
    for _ in 0..8 {
        game.update_with(long, &intervals, 'O');
        assert_eq!(game.state, GameState::Running);
    }
    let rows = shown(&game);
    assert_eq!(rows[0], "..........");
    assert_eq!(rows[1], "..........");
    for row in &rows[2..] {
        assert_eq!(row, "....OO....");
    }
    game.update_with(long, &intervals, 'O');
    assert_eq!(game.state, GameState::GameOver);
    assert_eq!(shown(&game), vec!["....OO....".to_string(); 20]);
    assert_eq!(game.moving_piece, Some(Piece::new('O', 0, Pos::new(4, 1))));
    assert_eq!(game.progress.level, 0);
    assert_eq!(game.progress.level_progress, 0);
}

#[test]
fn a_game_with_drawn_letters_ends_too() {
    let intervals = every_level(800);
    let mut game = running_game();
    let mut updates = 0;
    while game.state == GameState::Running {
        game.update(TimeSpan::milliseconds(20_000), &intervals);
        updates += 1;
        assert!(updates < 1000);
    }
    assert_eq!(game.state, GameState::GameOver);
    assert!(game.moving_piece.is_some());
}

#[test]
fn time_between_moves_looks_the_level_up_in_a_sine_curve() {
    let intervals = sine_intervals(60);
    let mut game = Game::default();
    assert_eq!(game.time_between_moves(&intervals), TimeSpan::milliseconds(800));
    let mut last = TimeSpan::milliseconds(800);
    for level in 1..=58u8 {
        game.progress.level = level;
        let interval = game.time_between_moves(&intervals);
        assert!(interval.nanos < last.nanos);
        assert!(interval.nanos > 0);
        last = interval;
    }
    game.progress.level = 30;
    assert_eq!(game.time_between_moves(&intervals), TimeSpan::milliseconds(234));
    game.progress.level = 60;
    assert_eq!(game.time_between_moves(&intervals), TimeSpan::zero());
}

#[test]
fn tile_spots_lists_locked_tiles_row_by_row() {
    let mut game = running_game();
    game.board.set_tile(Pos::new(7, 19), 'J');
    game.board.set_tile(Pos::new(2, 19), 'J');
    game.board.set_tile(Pos::new(9, 3), 'J');
    game.board.set_tile(Pos::new(0, 3), 'L');
    assert_eq!(game.tile_spots('J'), vec![(9, 3), (2, 19), (7, 19)]);
    assert_eq!(game.tile_spots('L'), vec![(0, 3)]);
    assert_eq!(game.tile_spots('T'), vec![]);
    assert_eq!(game.tile_spots('G'), vec![]);
}

#[test]
fn tile_spots_adds_the_falling_piece_under_its_letter() {
    let mut game = running_game();
    game.board.set_tile(Pos::new(0, 19), 'O');
    game.moving_piece = Some(Piece::new('O', 0, Pos::new(4, 1)));
    assert_eq!(game.tile_spots('O'), vec![(0, 19), (4, 0), (4, 1), (5, 1), (5, 0)]);
    assert_eq!(game.tile_spots('I'), vec![]);
}

#[test]
fn tile_spots_puts_the_shadow_where_the_piece_would_land() {
    let mut game = running_game();
    game.moving_piece = Some(Piece::new('O', 0, Pos::new(4, 1)));
    assert_eq!(game.tile_spots('G'), vec![(4, 18), (4, 19), (5, 19), (5, 18)]);
    game.board.set_tile(Pos::new(4, 10), 'Z');
    assert_eq!(game.tile_spots('G'), vec![(4, 8), (4, 9), (5, 9), (5, 8)]);
    game.moving_piece = Some(Piece::new('O', 0, Pos::new(4, 9)));
    assert_eq!(game.tile_spots('G'), vec![(4, 8), (4, 9), (5, 9), (5, 8)]);
    assert_eq!(game.tile_spots('O'), vec![(4, 8), (4, 9), (5, 9), (5, 8)]);
}

#[test]
fn tile_spots_of_a_paused_game_show_the_falling_piece_only() {
    let mut game = running_game();
    game.board.set_tile(Pos::new(0, 19), 'O');
    game.moving_piece = Some(Piece::new('O', 0, Pos::new(4, 1)));
    game.handle_key(Key::KeyP, true);
    assert_eq!(game.tile_spots('O'), vec![(4, 0), (4, 1), (5, 1), (5, 0)]);
    assert_eq!(game.tile_spots('G'), vec![]);
}

#[test]
fn tile_spots_of_a_game_that_is_over_show_no_shadow() {
    let mut game = running_game();
    game.board.set_tile(Pos::new(0, 19), 'O');
    game.moving_piece = Some(Piece::new('O', 0, Pos::new(4, 1)));
    game.state = GameState::GameOver;
    assert_eq!(game.tile_spots('G'), vec![]);
    assert_eq!(game.tile_spots('O'), vec![(0, 19), (4, 0), (4, 1), (5, 1), (5, 0)]);
}

#[test]
fn tile_spots_before_the_start_show_the_shadow_too() {
    let mut game = Game::default();
    game.moving_piece = Some(Piece::new('I', 1, Pos::new(4, 1)));
    assert_eq!(game.tile_spots('G'), vec![(5, 19), (4, 19), (3, 19), (2, 19)]);
    assert_eq!(game.tile_spots('I'), vec![(5, 1), (4, 1), (3, 1), (2, 1)]);
}

#[test]
fn ready_to_settle_until_the_levels_run_out() {
    let mut game = Game::default();
    assert!(game.ready_to_settle());
    // A fall on a board of twenty rows can bring two levels of ten rows.
    game.progress.level = 253;
    assert!(game.ready_to_settle());
    game.progress.level = 254;
    assert!(!game.ready_to_settle());
    game.progress.level = 255;
    assert!(!game.ready_to_settle());
}

#[test]
fn ready_for_any_time_when_not_running() {
    let intervals = every_level(0);
    for state in [GameState::NotStarted, GameState::Paused, GameState::GameOver] {
        let mut game = Game::default();
        game.state = state;
        game.progress.level = 255;
        assert!(game.ready_for(TimeSpan::milliseconds(16), &intervals));
    }
}

#[test]
fn ready_for_needs_a_positive_interval_at_every_level_in_reach() {
    let game = running_game();
    let mut intervals = every_level(800);
    assert!(game.ready_for(TimeSpan::milliseconds(16), &intervals));
    intervals[3] = TimeSpan::zero();
    assert!(game.ready_for(TimeSpan::milliseconds(16), &intervals));
    intervals[2] = TimeSpan::zero();
    assert!(!game.ready_for(TimeSpan::milliseconds(16), &intervals));
    intervals[2] = TimeSpan::milliseconds(-1);
    assert!(!game.ready_for(TimeSpan::milliseconds(16), &intervals));
    intervals[2] = TimeSpan::new(0, 1);
    assert!(game.ready_for(TimeSpan::milliseconds(16), &intervals));
    intervals[0] = TimeSpan::zero();
    assert!(!game.ready_for(TimeSpan::milliseconds(16), &intervals));
}

#[test]
fn ready_for_needs_room_for_the_level_and_the_time() {
    let intervals = every_level(800);
    let mut game = running_game();
    game.progress.level = 254;
    assert!(!game.ready_for(TimeSpan::milliseconds(16), &intervals));
    game.progress.level = 253;
    assert!(game.ready_for(TimeSpan::milliseconds(16), &intervals));
    game.moving_piece_timer.time = TimeSpan { nanos: i128::MAX };
    assert!(!game.ready_for(TimeSpan::new(0, 1), &intervals));
    assert!(game.ready_for(TimeSpan::zero(), &intervals));
    game.moving_piece_timer.time = TimeSpan { nanos: i128::MIN };
    assert!(!game.ready_for(TimeSpan::new(0, -1), &intervals));
}

#[test]
fn ready_for_follows_the_sine_curve_to_its_end() {
    let intervals = sine_intervals(60);
    let mut game = running_game();
    game.progress.level = 56;
    assert!(game.ready_for(TimeSpan::milliseconds(16), &intervals));
    // Level 59 is the first without a pause between two moves, and two
    // levels are in reach of one fall.
    game.progress.level = 57;
    assert!(!game.ready_for(TimeSpan::milliseconds(16), &intervals));
}

/// A small generator of numbers that look random and are the same on every run.
struct Chance(u64);

impl Chance {
    fn pick(&mut self, sides: u64) -> u64 {
        self.0 = self.0.wrapping_mul(6364136223846793005).wrapping_add(1442695040888963407);
        (self.0 >> 33) % sides
    }
}

#[test]
fn a_game_played_with_any_keys_stays_in_order() {
    let intervals = every_level(800);
    let letters = ['O', 'I', 'J', 'L', 'Z', 'S', 'T'];
    let keys = [
        Key::ArrowUp,
        Key::ArrowLeft,
        Key::ArrowDown,
        Key::ArrowRight,
        Key::KeyD,
        Key::KeyP,
        Key::Escape,
        Key::Space,
        Key::Other,
    ];
    for seed in 0..20 {
        let mut dice = Chance(seed);
        let mut game = running_game();
        let mut cleared_before = 0u32;
        for _ in 0..3000 {
            if dice.pick(3) == 0 {
                let elapsed = TimeSpan::milliseconds(dice.pick(2000) as i64);
                let drawn = letters[dice.pick(7) as usize];
                assert!(game.ready_for(elapsed, &intervals));
                game.update_with(elapsed, &intervals, drawn);
            } else {
                assert!(game.ready_to_settle());
                game.handle_key(keys[dice.pick(9) as usize], dice.pick(4) != 0);
            }
            if let Some(piece) = game.moving_piece {
                for pos in piece.tiles(&game.shapes) {
                    assert!(game.board.contains(pos));
                }
                if game.state != GameState::GameOver {
                    assert!(!game.piece_collides(piece));
                }
            }
            for row in &game.board.tiles {
                assert!(row.iter().any(|&c| c == '\0'));
            }
            assert!(game.progress.level_progress < 10);
            let cleared = game.progress.level as u32 * 10 + game.progress.level_progress as u32;
            assert!(cleared >= cleared_before);
            assert!(cleared - cleared_before <= 4);
            cleared_before = cleared;
        }
    }
}

#[test]
fn banner_tells_the_player_what_to_do() {
    let start = banner(GameState::NotStarted).unwrap();
    assert_eq!(start.text, "Press\nSPACE");
    assert_eq!(start.color, [0, 150, 150, 200]);
    assert_eq!((start.size, start.top), (60, 160));
    let pause = banner(GameState::Paused).unwrap();
    assert_eq!(pause.text, "Press P");
    assert_eq!(pause.color, [0, 150, 150, 200]);
    assert_eq!((pause.size, pause.top), (60, 160));
    let end = banner(GameState::GameOver).unwrap();
    assert_eq!(end.text, "Game Over");
    assert_eq!(end.color, [150, 0, 0, 255]);
    assert_eq!((end.size, end.top), (60, 260));
    assert!(banner(GameState::Running).is_none());
}

#[test]
fn outline_offsets_surround_the_text() {
    assert_eq!(
        outline_offsets(),
        [(-2, -2), (0, -2), (2, -2), (-2, 0), (2, 0), (-2, 2), (0, 2), (2, 2)]
    );
}
