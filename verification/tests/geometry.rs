use blockfall::geometry::{Pos, Shape};
use blockfall::piece::{Piece, ShapeTable};

fn offsets(shape: Shape) -> [(i8, i8); 4] {
    [
        (shape.0[0].x, shape.0[0].y),
        (shape.0[1].x, shape.0[1].y),
        (shape.0[2].x, shape.0[2].y),
        (shape.0[3].x, shape.0[3].y),
    ]
}

fn positions(cells: [Pos; 4]) -> [(i8, i8); 4] {
    [(cells[0].x, cells[0].y), (cells[1].x, cells[1].y), (cells[2].x, cells[2].y), (cells[3].x, cells[3].y)]
}

fn shape_of(letter: char) -> Shape {
    ShapeTable::standard().get(letter).unwrap()
}

#[test]
fn pos_new_keeps_coordinates() {
    let p = Pos::new(-3, 7);
    assert_eq!(p.x, -3);
    assert_eq!(p.y, 7);
}

#[test]
fn pos_add_sums_coordinates() {
    assert_eq!(Pos::new(4, 1) + Pos::new(-1, 2), Pos::new(3, 3));
    assert_eq!(Pos::new(0, 0) + Pos::new(0, 0), Pos::new(0, 0));
    assert_eq!(Pos::new(-128, 127) + Pos::new(1, -1), Pos::new(-127, 126));
}

#[test]
fn shape_at_moves_every_offset() {
    let shape = Shape::new([Pos::new(0, -1), Pos::new(0, 0), Pos::new(1, 0), Pos::new(1, -1)]);
    assert_eq!(positions(shape.at(Pos::new(4, 1))), [(4, 0), (4, 1), (5, 1), (5, 0)]);
    assert_eq!(positions(shape.at(Pos::new(0, 0))), [(0, -1), (0, 0), (1, 0), (1, -1)]);
}

#[test]
fn rotated_once_maps_x_y_to_minus_y_x() {
    let shape = Shape::new([Pos::new(1, 2), Pos::new(-3, 4), Pos::new(0, 0), Pos::new(5, -6)]);
    assert_eq!(offsets(shape.rotated_once()), [(-2, 1), (-4, -3), (0, 0), (6, 5)]);
}

#[test]
fn rotated_zero_times_is_the_shape_itself() {
    let shape = shape_of('L');
    assert_eq!(offsets(shape.rotated(0)), offsets(shape));
}

#[test]
fn rotated_counts_quarter_turns() {
    let shape = Shape::new([Pos::new(1, 2), Pos::new(-3, 4), Pos::new(0, 0), Pos::new(5, -6)]);
    assert_eq!(offsets(shape.rotated(1)), [(-2, 1), (-4, -3), (0, 0), (6, 5)]);
    assert_eq!(offsets(shape.rotated(2)), [(-1, -2), (3, -4), (0, 0), (-5, 6)]);
    assert_eq!(offsets(shape.rotated(3)), [(2, -1), (4, 3), (0, 0), (-6, -5)]);
}

#[test]
fn full_rotation_is_identity_for_every_standard_shape() {
    for letter in ['O', 'I', 'J', 'L', 'Z', 'S', 'T'] {
        let shape = shape_of(letter);
        assert_eq!(offsets(shape.rotated(4)), offsets(shape));
        let four_single = shape.rotated(1).rotated(1).rotated(1).rotated(1);
        assert_eq!(offsets(four_single), offsets(shape.rotated(4)));
        let four_once = shape.rotated_once().rotated_once().rotated_once().rotated_once();
        assert_eq!(offsets(four_once), offsets(shape));
    }
}

#[test]
fn rotation_count_is_applied_modulo_four() {
    let shape = shape_of('T');
    assert_eq!(offsets(shape.rotated(5)), offsets(shape.rotated(1)));
    assert_eq!(offsets(shape.rotated(254)), offsets(shape.rotated(2)));
    assert_eq!(offsets(shape.rotated(255)), offsets(shape.rotated(3)));
}

#[test]
fn extreme_offsets_survive_a_full_turn() {
    let shape = Shape::new([Pos::new(127, -127), Pos::new(-127, 127), Pos::new(0, 127), Pos::new(-127, 0)]);
    assert_eq!(offsets(shape.rotated(4)), offsets(shape));
    assert_eq!(offsets(shape.rotated(1)), [(127, 127), (-127, -127), (-127, 0), (0, -127)]);
}

#[test]
fn standard_table_holds_the_seven_shapes() {
    let table = ShapeTable::standard();
    assert_eq!(table.letters(), vec!['O', 'I', 'J', 'L', 'Z', 'S', 'T']);
    assert_eq!(offsets(table.get('O').unwrap()), [(0, -1), (0, 0), (1, 0), (1, -1)]);
    assert_eq!(offsets(table.get('I').unwrap()), [(0, -1), (0, 0), (0, 1), (0, 2)]);
    assert_eq!(offsets(table.get('J').unwrap()), [(1, -1), (1, 0), (1, 1), (0, 1)]);
    assert_eq!(offsets(table.get('L').unwrap()), [(0, -1), (0, 0), (0, 1), (1, 1)]);
    assert_eq!(offsets(table.get('Z').unwrap()), [(1, -1), (1, 0), (0, 0), (0, 1)]);
    assert_eq!(offsets(table.get('S').unwrap()), [(0, -1), (0, 0), (1, 0), (1, 1)]);
    assert_eq!(offsets(table.get('T').unwrap()), [(0, -1), (0, 0), (0, 1), (1, 0)]);
}

#[test]
fn standard_table_has_no_other_letter() {
    let table = ShapeTable::standard();
    assert!(table.get('G').is_none());
    assert!(table.get('o').is_none());
    assert!(table.get('\0').is_none());
}

#[test]
fn piece_new_keeps_its_parts() {
    let piece = Piece::new('S', 3, Pos::new(4, 1));
    assert_eq!(piece.letter, 'S');
    assert_eq!(piece.rotation, 3);
    assert_eq!(piece.origin, Pos::new(4, 1));
}

#[test]
fn piece_moved_adds_the_delta_to_the_origin() {
    let piece = Piece::new('T', 2, Pos::new(4, 1));
    let moved = piece.moved(Pos::new(-1, 3));
    assert_eq!(moved, Piece::new('T', 2, Pos::new(3, 4)));
    assert_eq!(piece, Piece::new('T', 2, Pos::new(4, 1)));
}

#[test]
fn piece_rotated_cw_counts_modulo_four() {
    let piece = Piece::new('L', 0, Pos::new(4, 1));
    assert_eq!(piece.rotated_cw().rotation, 1);
    assert_eq!(piece.rotated_cw().rotated_cw().rotation, 2);
    assert_eq!(piece.rotated_cw().rotated_cw().rotated_cw().rotation, 3);
    assert_eq!(piece.rotated_cw().rotated_cw().rotated_cw().rotated_cw(), piece);
    assert_eq!(Piece::new('L', 7, Pos::new(0, 0)).rotated_cw().rotation, 0);
}

#[test]
fn piece_tiles_at_spawn_without_turn() {
    let table = ShapeTable::standard();
    let origin = Pos::new(4, 1);
    assert_eq!(positions(Piece::new('O', 0, origin).tiles(&table)), [(4, 0), (4, 1), (5, 1), (5, 0)]);
    assert_eq!(positions(Piece::new('I', 0, origin).tiles(&table)), [(4, 0), (4, 1), (4, 2), (4, 3)]);
    assert_eq!(positions(Piece::new('J', 0, origin).tiles(&table)), [(5, 0), (5, 1), (5, 2), (4, 2)]);
    assert_eq!(positions(Piece::new('L', 0, origin).tiles(&table)), [(4, 0), (4, 1), (4, 2), (5, 2)]);
    assert_eq!(positions(Piece::new('Z', 0, origin).tiles(&table)), [(5, 0), (5, 1), (4, 1), (4, 2)]);
    assert_eq!(positions(Piece::new('S', 0, origin).tiles(&table)), [(4, 0), (4, 1), (5, 1), (5, 2)]);
    assert_eq!(positions(Piece::new('T', 0, origin).tiles(&table)), [(4, 0), (4, 1), (4, 2), (5, 1)]);
}

#[test]
fn piece_tiles_turn_before_they_move() {
    let table = ShapeTable::standard();
    // I: (0,-1),(0,0),(0,1),(0,2); one turn gives (1,0),(0,0),(-1,0),(-2,0).
    assert_eq!(
        positions(Piece::new('I', 1, Pos::new(4, 1)).tiles(&table)),
        [(5, 1), (4, 1), (3, 1), (2, 1)]
    );
    // T: (0,-1),(0,0),(0,1),(1,0); two turns give (0,1),(0,0),(0,-1),(-1,0).
    assert_eq!(
        positions(Piece::new('T', 2, Pos::new(3, 5)).tiles(&table)),
        [(3, 6), (3, 5), (3, 4), (2, 5)]
    );
    // L: (0,-1),(0,0),(0,1),(1,1); three turns give (-1,0),(0,0),(1,0),(1,-1).
    assert_eq!(
        positions(Piece::new('L', 3, Pos::new(1, 1)).tiles(&table)),
        [(0, 1), (1, 1), (2, 1), (2, 0)]
    );
}

#[test]
fn piece_tiles_take_the_rotation_modulo_four() {
    let table = ShapeTable::standard();
    let once = Piece::new('J', 1, Pos::new(4, 4)).tiles(&table);
    let five = Piece::new('J', 5, Pos::new(4, 4)).tiles(&table);
    assert_eq!(positions(once), positions(five));
}
