//! Board-relative positions and the four-cell patterns of the pieces.
//!
//! Contracts speak of positions as pairs of mathematical integers, so that
//! sums and turns are stated without regard to the width of `i8`; the
//! executable functions ask, in their `requires`, that every coordinate they
//! compute is one an `i8` can hold.

use std::ops::Add;
use vstd::prelude::*;
use vstd::std_specs::ops::AddSpecImpl;

verus! {

/// A position on the board, or an offset between two positions.
#[derive(Clone, Copy, Debug, PartialEq, Eq, Structural)]
pub struct Pos {
    pub x: i8,
    pub y: i8,
}

impl View for Pos {
    type V = (int, int);

    open spec fn view(&self) -> (int, int) {
        (self.x as int, self.y as int)
    }
}

/// Both coordinates are values of `i8`.
pub open spec fn fits_i8(p: (int, int)) -> bool {
    i8::MIN <= p.0 <= i8::MAX && i8::MIN <= p.1 <= i8::MAX
}

/// The position `p` moved by the offset `by`.
pub open spec fn shifted(p: (int, int), by: (int, int)) -> (int, int) {
    (p.0 + by.0, p.1 + by.1)
}

/// The offset `p` turned by ninety degrees: `(x, y)` becomes `(-y, x)`.
pub open spec fn quarter_turn(p: (int, int)) -> (int, int) {
    (-p.1, p.0)
}

/// The offset `p` after `times` quarter turns. Four turns come back to the
/// start, so only `times` modulo four matters.
pub open spec fn turned(p: (int, int), times: nat) -> (int, int) {
    if times % 4 == 0 {
        p
    } else if times % 4 == 1 {
        (-p.1, p.0)
    } else if times % 4 == 2 {
        (-p.0, -p.1)
    } else {
        (p.1, -p.0)
    }
}

/// Every offset of `cells` after `times` quarter turns.
pub open spec fn turned_cells(cells: Seq<(int, int)>, times: nat) -> Seq<(int, int)> {
    Seq::new(cells.len(), |i: int| turned(cells[i], times))
}

/// Every offset of `cells` moved by `by`.
pub open spec fn shifted_cells(cells: Seq<(int, int)>, by: (int, int)) -> Seq<(int, int)> {
    Seq::new(cells.len(), |i: int| shifted(cells[i], by))
}

/// No turn leaves an offset where it is, and one more turn is a quarter turn
/// of what was there: `turned` is the quarter turn applied `times` times.
pub proof fn law_turned_is_repeated_quarter_turn(p: (int, int), times: nat)
    ensures
        turned(p, 0) == p,
        turned(p, times + 1) == quarter_turn(turned(p, times)),
{
}

impl Pos {
    pub fn new(x: i8, y: i8) -> (pos: Pos)
        ensures
            pos.x == x,
            pos.y == y,
    {
        Pos { x, y }
    }
}

impl Add<Pos> for Pos {
    type Output = Pos;

    fn add(self, rhs: Pos) -> (sum: Pos) {
        Pos { x: self.x + rhs.x, y: self.y + rhs.y }
    }
}

impl AddSpecImpl<Pos> for Pos {
    open spec fn obeys_add_spec() -> bool {
        true
    }

    open spec fn add_req(self, rhs: Pos) -> bool {
        fits_i8(shifted(self@, rhs@))
    }

    open spec fn add_spec(self, rhs: Pos) -> Pos {
        Pos { x: (self.x + rhs.x) as i8, y: (self.y + rhs.y) as i8 }
    }
}

/// The four cells of one kind of piece, as offsets from the piece's origin
/// before any turn.
#[derive(Clone, Copy, Debug)]
pub struct Shape(pub [Pos; 4]);

impl View for Shape {
    type V = Seq<(int, int)>;

    open spec fn view(&self) -> Seq<(int, int)> {
        Seq::new(4, |i: int| self.0[i]@)
    }
}

impl Shape {
    /// Two shapes with the same offsets are the same shape.
    pub proof fn lemma_same_cells(self, other: Shape)
        requires
            self@ == other@,
        ensures
            self == other,
    {
        assert forall|i: int| 0 <= i < 4 implies self.0[i] == other.0[i] by {
            assert(self@[i] == other@[i]);
        }
        assert(self.0 =~= other.0);
    }

    pub fn new(offsets: [Pos; 4]) -> (shape: Shape)
        ensures
            shape.0 == offsets,
    {
        Shape(offsets)
    }

    /// The four offsets moved to `pos`: the cells of a piece of this shape
    /// whose origin is `pos`.
    pub fn at(self, pos: Pos) -> (cells: [Pos; 4])
        requires
            forall|i: int| 0 <= i < 4 ==> fits_i8(#[trigger] shifted(self@[i], pos@)),
        ensures
            forall|i: int| 0 <= i < 4 ==> (#[trigger] cells[i])@ == shifted(self@[i], pos@),
    {
        assert(fits_i8(shifted(self@[0], pos@)));
        assert(fits_i8(shifted(self@[1], pos@)));
        assert(fits_i8(shifted(self@[2], pos@)));
        assert(fits_i8(shifted(self@[3], pos@)));
        [pos + self.0[0], pos + self.0[1], pos + self.0[2], pos + self.0[3]]
    }

    /// One quarter turn. The new `x` is the old `y` negated, so the old `y`
    /// must not be the one `i8` without a negative.
    pub fn rotated_once(self) -> (shape: Shape)
        requires
            forall|i: int| 0 <= i < 4 ==> (#[trigger] self@[i]).1 > i8::MIN,
        ensures
            shape@ == turned_cells(self@, 1),
    {
        assert(self@[0].1 > i8::MIN);
        assert(self@[1].1 > i8::MIN);
        assert(self@[2].1 > i8::MIN);
        assert(self@[3].1 > i8::MIN);
        let a = self.0;
        let shape = Shape(
            [
                Pos { x: -a[0].y, y: a[0].x },
                Pos { x: -a[1].y, y: a[1].x },
                Pos { x: -a[2].y, y: a[2].x },
                Pos { x: -a[3].y, y: a[3].x },
            ],
        );
        assert(shape@ =~= turned_cells(self@, 1));
        shape
    }

    /// `times` quarter turns, one after the other. The first negates every
    /// `y`, the second every `x`; later turns only undo these.
    pub fn rotated(self, times: u8) -> (shape: Shape)
        requires
            times >= 1 ==> forall|i: int| 0 <= i < 4 ==> (#[trigger] self@[i]).1 > i8::MIN,
            times >= 2 ==> forall|i: int| 0 <= i < 4 ==> (#[trigger] self@[i]).0 > i8::MIN,
        ensures
            shape@ == turned_cells(self@, times as nat),
            times % 4 == 0 ==> shape == self,
    {
        let mut shape = self;
        let mut done: u8 = 0;
        assert(shape@ =~= turned_cells(self@, 0));
        while done < times
            invariant
                done <= times,
                shape@ == turned_cells(self@, done as nat),
                times >= 1 ==> forall|i: int| 0 <= i < 4 ==> (#[trigger] self@[i]).1 > i8::MIN,
                times >= 2 ==> forall|i: int| 0 <= i < 4 ==> (#[trigger] self@[i]).0 > i8::MIN,
            decreases times - done,
        {
            assert forall|i: int| 0 <= i < 4 implies (#[trigger] shape@[i]).1 > i8::MIN by {
                assert(shape@[i] == turned(self@[i], done as nat));
            }
            let next = shape.rotated_once();
            assert(next@ =~= turned_cells(self@, (done + 1) as nat)) by {
                assert forall|i: int| 0 <= i < 4 implies next@[i] == turned(
                    self@[i],
                    (done + 1) as nat,
                ) by {
                    assert(next@[i] == turned(shape@[i], 1));
                }
            }
            shape = next;
            done = done + 1;
        }
        proof {
            if times % 4 == 0 {
                assert(shape@ =~= self@);
                shape.lemma_same_cells(self);
            }
        }
        shape
    }
}

/// A full turn brings every shape back to itself, and four single turns are
/// one turn by four.
pub proof fn law_full_turn(shape: Shape)
    ensures
        turned_cells(shape@, 4) == shape@,
        turned_cells(turned_cells(turned_cells(turned_cells(shape@, 1), 1), 1), 1) == turned_cells(
            shape@,
            4,
        ),
{
    assert(turned_cells(shape@, 4) =~= shape@);
    assert(turned_cells(turned_cells(turned_cells(turned_cells(shape@, 1), 1), 1), 1)
        =~= turned_cells(shape@, 4));
}

/// Turning by `times` and turning by `times` modulo four give the same cells.
pub proof fn law_turns_modulo_four(shape: Shape, times: nat)
    ensures
        turned_cells(shape@, times) == turned_cells(shape@, times % 4),
{
    assert forall|i: int| 0 <= i < 4 implies turned(shape@[i], times) == turned(
        shape@[i],
        times % 4,
    ) by {
        assert(times % 4 % 4 == times % 4);
    }
    assert(turned_cells(shape@, times) =~= turned_cells(shape@, times % 4));
}

} // verus!
