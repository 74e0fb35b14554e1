//! The table of shapes and the piece that falls.
//!
//! A piece knows only its letter, how often it has been turned and where its
//! origin is. The cells it covers are worked out against a shape table,
//! which is handed in wherever they are asked for.

use crate::geometry::{fits_i8, shifted, shifted_cells, turned_cells, Pos, Shape};
use vstd::prelude::*;

verus! {

/// No offset of a shape in a table reaches further than this from the
/// origin, along either axis.
pub const MAX_REACH: i8 = 2;

/// The shape of every kind of piece, by letter.
pub struct ShapeTable {
    pub entries: Vec<(char, Shape)>,
}

impl View for ShapeTable {
    type V = Map<char, Seq<(int, int)>>;

    open spec fn view(&self) -> Map<char, Seq<(int, int)>> {
        Map::new(|letter: char| self.has(letter), |letter: char| self.entries@[self.slot(letter)].1@)
    }
}

/// The offsets of the seven pieces before any turn.
pub open spec fn standard_shapes() -> Map<char, Seq<(int, int)>> {
    map![
        'O' => seq![(0int, -1int), (0int, 0int), (1int, 0int), (1int, -1int)],
        'I' => seq![(0int, -1int), (0int, 0int), (0int, 1int), (0int, 2int)],
        'J' => seq![(1int, -1int), (1int, 0int), (1int, 1int), (0int, 1int)],
        'L' => seq![(0int, -1int), (0int, 0int), (0int, 1int), (1int, 1int)],
        'Z' => seq![(1int, -1int), (1int, 0int), (0int, 0int), (0int, 1int)],
        'S' => seq![(0int, -1int), (0int, 0int), (1int, 0int), (1int, 1int)],
        'T' => seq![(0int, -1int), (0int, 0int), (0int, 1int), (1int, 0int)],
    ]
}

impl ShapeTable {
    /// Some entry is for `letter`.
    pub open spec fn has(&self, letter: char) -> bool {
        exists|i: int| 0 <= i < self.entries@.len() && (#[trigger] self.entries@[i]).0 == letter
    }

    /// The place of the entry for `letter`.
    pub open spec fn slot(&self, letter: char) -> int {
        choose|i: int| 0 <= i < self.entries@.len() && (#[trigger] self.entries@[i]).0 == letter
    }

    /// The letters in the order of their entries.
    pub open spec fn spec_letters(&self) -> Seq<char> {
        Seq::new(self.entries@.len(), |i: int| self.entries@[i].0)
    }

    /// The table is not empty, no letter has two entries, and no offset
    /// reaches further than `MAX_REACH`.
    pub open spec fn wf(&self) -> bool {
        &&& self.entries@.len() > 0
        &&& forall|i: int, j: int|
            0 <= i < j < self.entries@.len() ==> (#[trigger] self.entries@[i]).0 != (
            #[trigger] self.entries@[j]).0
        &&& forall|i: int, k: int|
            0 <= i < self.entries@.len() && 0 <= k < 4 ==> {
                &&& -MAX_REACH <= (#[trigger] (#[trigger] self.entries@[i]).1@[k]).0 <= MAX_REACH
                &&& -MAX_REACH <= self.entries@[i].1@[k].1 <= MAX_REACH
            }
    }

    /// In a well-formed table, the entry at `i` is the one its letter is
    /// mapped to.
    pub proof fn lemma_entry(&self, i: int)
        requires
            self.wf(),
            0 <= i < self.entries@.len(),
        ensures
            self@.dom().contains(self.entries@[i].0),
            self@[self.entries@[i].0] == self.entries@[i].1@,
            self.slot(self.entries@[i].0) == i,
    {
        let letter = self.entries@[i].0;
        assert(self.has(letter));
        let j = self.slot(letter);
        assert(0 <= j < self.entries@.len() && self.entries@[j].0 == letter);
        if j < i {
            assert(self.entries@[j].0 != self.entries@[i].0);
        } else if i < j {
            assert(self.entries@[i].0 != self.entries@[j].0);
        }
    }

    /// In a well-formed table every shape has four offsets, none further
    /// than `MAX_REACH` from the origin.
    pub proof fn lemma_reach(&self, letter: char)
        requires
            self.wf(),
            self@.dom().contains(letter),
        ensures
            self@[letter].len() == 4,
            forall|k: int|
                0 <= k < 4 ==> {
                    &&& -MAX_REACH <= (#[trigger] self@[letter][k]).0 <= MAX_REACH
                    &&& -MAX_REACH <= self@[letter][k].1 <= MAX_REACH
                },
    {
        let i = self.slot(letter);
        assert(self.has(letter));
        assert forall|k: int| 0 <= k < 4 implies {
            &&& -MAX_REACH <= (#[trigger] self@[letter][k]).0 <= MAX_REACH
            &&& -MAX_REACH <= self@[letter][k].1 <= MAX_REACH
        } by {
            assert(-MAX_REACH <= self.entries@[i].1@[k].0 <= MAX_REACH);
        }
    }

    /// The table of the seven pieces O, I, J, L, Z, S and T.
    pub fn standard() -> (table: ShapeTable)
        ensures
            table.wf(),
            table@ == standard_shapes(),
            table.spec_letters() == seq!['O', 'I', 'J', 'L', 'Z', 'S', 'T'],
    {
        let mut entries: Vec<(char, Shape)> = Vec::new();
        entries.push(
            ('O', Shape::new([Pos::new(0, -1), Pos::new(0, 0), Pos::new(1, 0), Pos::new(1, -1)])),
        );
        entries.push(
            ('I', Shape::new([Pos::new(0, -1), Pos::new(0, 0), Pos::new(0, 1), Pos::new(0, 2)])),
        );
        entries.push(
            ('J', Shape::new([Pos::new(1, -1), Pos::new(1, 0), Pos::new(1, 1), Pos::new(0, 1)])),
        );
        entries.push(
            ('L', Shape::new([Pos::new(0, -1), Pos::new(0, 0), Pos::new(0, 1), Pos::new(1, 1)])),
        );
        entries.push(
            ('Z', Shape::new([Pos::new(1, -1), Pos::new(1, 0), Pos::new(0, 0), Pos::new(0, 1)])),
        );
        entries.push(
            ('S', Shape::new([Pos::new(0, -1), Pos::new(0, 0), Pos::new(1, 0), Pos::new(1, 1)])),
        );
        entries.push(
            ('T', Shape::new([Pos::new(0, -1), Pos::new(0, 0), Pos::new(0, 1), Pos::new(1, 0)])),
        );
        let table = ShapeTable { entries };
        proof {
            assert(table.wf());
            table.lemma_entry(0);
            table.lemma_entry(1);
            table.lemma_entry(2);
            table.lemma_entry(3);
            table.lemma_entry(4);
            table.lemma_entry(5);
            table.lemma_entry(6);
            assert(table.entries@[0].1@ =~= standard_shapes()['O']);
            assert(table.entries@[1].1@ =~= standard_shapes()['I']);
            assert(table.entries@[2].1@ =~= standard_shapes()['J']);
            assert(table.entries@[3].1@ =~= standard_shapes()['L']);
            assert(table.entries@[4].1@ =~= standard_shapes()['Z']);
            assert(table.entries@[5].1@ =~= standard_shapes()['S']);
            assert(table.entries@[6].1@ =~= standard_shapes()['T']);
            assert(table@ =~= standard_shapes());
            assert(table.spec_letters() =~= seq!['O', 'I', 'J', 'L', 'Z', 'S', 'T']);
        }
        table
    }

    /// The shape for `letter`, or `None` where the table has none.
    pub fn get(&self, letter: char) -> (found: Option<Shape>)
        requires
            self.wf(),
        ensures
            found is Some <==> self@.dom().contains(letter),
            found matches Some(shape) ==> shape@ == self@[letter],
    {
        let mut i: usize = 0;
        while i < self.entries.len()
            invariant
                self.wf(),
                i <= self.entries@.len(),
                forall|j: int| 0 <= j < i ==> (#[trigger] self.entries@[j]).0 != letter,
            decreases self.entries@.len() - i,
        {
            if self.entries[i].0 == letter {
                proof {
                    self.lemma_entry(i as int);
                }
                return Some(self.entries[i].1);
            }
            i = i + 1;
        }
        None
    }

    /// The letters of the table, in the order of their entries.
    pub fn letters(&self) -> (letters: Vec<char>)
        ensures
            letters@ == self.spec_letters(),
    {
        let mut letters: Vec<char> = Vec::new();
        let mut i: usize = 0;
        while i < self.entries.len()
            invariant
                i <= self.entries@.len(),
                letters@.len() == i,
                forall|j: int| 0 <= j < i ==> letters@[j] == (#[trigger] self.entries@[j]).0,
            decreases self.entries@.len() - i,
        {
            letters.push(self.entries[i].0);
            i = i + 1;
        }
        assert(letters@ =~= self.spec_letters());
        letters
    }
}

/// A piece on or above the board.
#[derive(Clone, Copy, Debug, PartialEq, Eq, Structural)]
pub struct Piece {
    /// Which shape of the table the piece has.
    pub letter: char,
    /// How many quarter turns it has made.
    pub rotation: u8,
    /// Where the origin of its shape lies.
    pub origin: Pos,
}

/// The four cells that `piece` covers, given the offsets of every shape: the
/// offsets of its own shape, turned `rotation` times and moved to `origin`.
pub open spec fn piece_cells(shapes: Map<char, Seq<(int, int)>>, piece: Piece) -> Seq<(int, int)> {
    shifted_cells(turned_cells(shapes[piece.letter], piece.rotation as nat), piece.origin@)
}

impl Piece {
    /// The four cells the piece covers.
    pub open spec fn cells(&self, shapes: &ShapeTable) -> Seq<(int, int)> {
        piece_cells(shapes@, *self)
    }

    /// The piece with its origin moved by `dx` and `dy`.
    pub open spec fn spec_moved(self, dx: int, dy: int) -> Piece {
        Piece {
            letter: self.letter,
            rotation: self.rotation,
            origin: Pos { x: (self.origin.x + dx) as i8, y: (self.origin.y + dy) as i8 },
        }
    }

    /// The piece after one more quarter turn.
    pub open spec fn spec_rotated_cw(self) -> Piece {
        Piece {
            letter: self.letter,
            rotation: ((self.rotation + 1) % 4) as u8,
            origin: self.origin,
        }
    }

    /// The table has the piece's shape, and each of its cells is a
    /// position that `Pos` can hold.
    pub open spec fn placeable(&self, shapes: &ShapeTable) -> bool {
        &&& shapes@.dom().contains(self.letter)
        &&& forall|k: int| 0 <= k < 4 ==> fits_i8(#[trigger] self.cells(shapes)[k])
    }

    pub fn new(letter: char, rotation: u8, origin: Pos) -> (piece: Piece)
        ensures
            piece.letter == letter,
            piece.rotation == rotation,
            piece.origin == origin,
    {
        Piece { letter, rotation, origin }
    }

    /// The piece with its origin moved by `amount`.
    pub fn moved(self, amount: Pos) -> (piece: Piece)
        requires
            fits_i8(shifted(self.origin@, amount@)),
        ensures
            piece == self.spec_moved(amount.x as int, amount.y as int),
    {
        Piece { letter: self.letter, rotation: self.rotation, origin: self.origin + amount }
    }

    /// The piece after one more quarter turn. The count of turns starts
    /// again at four.
    pub fn rotated_cw(self) -> (piece: Piece)
        requires
            self.rotation < u8::MAX,
        ensures
            piece == self.spec_rotated_cw(),
    {
        Piece { letter: self.letter, rotation: (self.rotation + 1) % 4, origin: self.origin }
    }

    /// The four cells that the piece covers.
    pub fn tiles(&self, shapes: &ShapeTable) -> (tiles: [Pos; 4])
        requires
            shapes.wf(),
            self.placeable(shapes),
        ensures
            forall|k: int| 0 <= k < 4 ==> (#[trigger] tiles[k])@ == self.cells(shapes)[k],
    {
        proof {
            shapes.lemma_reach(self.letter);
        }
        let shape = shapes.get(self.letter).unwrap();
        let turned_shape = shape.rotated(self.rotation);
        assert forall|k: int| 0 <= k < 4 implies fits_i8(
            #[trigger] shifted(turned_shape@[k], self.origin@),
        ) by {
            assert(fits_i8(self.cells(shapes)[k]));
        }
        turned_shape.at(self.origin)
    }
}

} // verus!
