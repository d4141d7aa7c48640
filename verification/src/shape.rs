//! The piece catalog: the seven shapes, their quarter turns, and the random
//! draw of the next one.
//!
//! A shape is four offsets from a pivot, in half cells. The pivot sits on a
//! corner of the lattice, so every offset is odd in both directions.

use rand::Rng;
use vstd::pervasive::unreached;
use vstd::prelude::*;

verus! {

/// Number of shapes in the catalog.
pub const SHAPE_COUNT: usize = 7;

/// An offset from a piece's pivot, in half cells.
#[derive(Clone, Copy, Debug, PartialEq, Eq, Structural)]
pub struct Offset {
    pub dx: i32,
    pub dy: i32,
}

/// The names of the catalog's shapes, in catalog order.
#[derive(Clone, Copy, Debug, PartialEq, Eq, Structural)]
pub enum ShapeKind {
    N,
    NMirrored,
    T,
    O,
    L,
    LMirrored,
    I,
}

/// The shape name at a catalog position; positions past the end give the last.
pub open spec fn kind_at(index: int) -> ShapeKind {
    if index <= 0 {
        ShapeKind::N
    } else if index == 1 {
        ShapeKind::NMirrored
    } else if index == 2 {
        ShapeKind::T
    } else if index == 3 {
        ShapeKind::O
    } else if index == 4 {
        ShapeKind::L
    } else if index == 5 {
        ShapeKind::LMirrored
    } else {
        ShapeKind::I
    }
}

/// The offset with the given components.
pub open spec fn offset(dx: int, dy: int) -> Offset {
    Offset { dx: dx as i32, dy: dy as i32 }
}

/// The four offsets of each shape as the catalog defines it.
pub open spec fn canonical_offsets(kind: ShapeKind) -> Seq<Offset> {
    match kind {
        ShapeKind::N => seq![
            offset(1, 1),
            offset(-1, 1),
            offset(1, 3),
            offset(-1, -1),
        ],
        ShapeKind::NMirrored => seq![
            offset(1, 1),
            offset(-1, 1),
            offset(1, -1),
            offset(-1, 3),
        ],
        ShapeKind::T => seq![
            offset(1, 1),
            offset(-1, 1),
            offset(-1, -1),
            offset(-1, 3),
        ],
        ShapeKind::O => seq![
            offset(-1, 1),
            offset(-1, -1),
            offset(1, -1),
            offset(1, 1),
        ],
        ShapeKind::L => seq![
            offset(1, -1),
            offset(-1, 3),
            offset(-1, -1),
            offset(-1, 1),
        ],
        ShapeKind::LMirrored => seq![
            offset(-1, -1),
            offset(1, 3),
            offset(1, -1),
            offset(1, 1),
        ],
        ShapeKind::I => seq![
            offset(1, 1),
            offset(1, 3),
            offset(1, -1),
            offset(1, -3),
        ],
    }
}

/// A quarter turn about the pivot: `(dx, dy)` goes to `(-dy, dx)`, which is
/// counter-clockwise with rows growing upwards.
pub open spec fn quarter_turn(o: Offset) -> Offset {
    Offset { dx: (-o.dy) as i32, dy: o.dx }
}

/// Every offset of a shape turned by a quarter.
pub open spec fn turned(offsets: Seq<Offset>) -> Seq<Offset> {
    Seq::new(offsets.len(), |i: int| quarter_turn(offsets[i]))
}

/// An offset of a shape is odd in both directions and at most three half
/// cells from the pivot.
pub open spec fn valid_offset(o: Offset) -> bool {
    &&& -3 <= o.dx <= 3
    &&& -3 <= o.dy <= 3
    &&& o.dx % 2 == 1
    &&& o.dy % 2 == 1
}

/// A shape has exactly four cells: four valid offsets, no two the same.
pub open spec fn valid_offsets(offsets: Seq<Offset>) -> bool {
    &&& offsets.len() == 4
    &&& forall|i: int| 0 <= i < 4 ==> valid_offset(#[trigger] offsets[i])
    &&& offsets.no_duplicates()
}

/// Whether `offsets` is one of the catalog's shapes, unturned.
pub open spec fn in_catalog(offsets: Seq<Offset>) -> bool {
    exists|index: int| 0 <= index < SHAPE_COUNT && offsets == canonical_offsets(#[trigger] kind_at(index))
}

/// Every shape of the catalog is a valid shape.
pub proof fn lemma_canonical_valid(kind: ShapeKind)
    ensures
        valid_offsets(canonical_offsets(kind)),
{
}

/// A quarter turn keeps a shape valid.
pub proof fn lemma_turned_valid(offsets: Seq<Offset>)
    requires
        valid_offsets(offsets),
    ensures
        valid_offsets(turned(offsets)),
{
    let t = turned(offsets);
    assert forall|i: int| 0 <= i < 4 implies valid_offset(#[trigger] t[i]) by {
        assert(valid_offset(offsets[i]));
    }
    assert forall|i: int, j: int| 0 <= i < 4 && 0 <= j < 4 && i != j implies t[i] != t[j] by {
        assert(valid_offset(offsets[i]));
        assert(valid_offset(offsets[j]));
        assert(offsets[i] != offsets[j]);
    }
}

/// Four quarter turns give back the shape they started from.
pub proof fn lemma_four_turns(offsets: Seq<Offset>)
    requires
        valid_offsets(offsets),
    ensures
        turned(turned(turned(turned(offsets)))) == offsets,
{
    let t1 = turned(offsets);
    let t2 = turned(t1);
    let t3 = turned(t2);
    let t4 = turned(t3);
    assert forall|i: int| 0 <= i < 4 implies t4[i] == offsets[i] by {
        assert(valid_offset(offsets[i]));
        assert(t1[i] == quarter_turn(offsets[i]));
        assert(t2[i] == quarter_turn(t1[i]));
        assert(t3[i] == quarter_turn(t2[i]));
        assert(t4[i] == quarter_turn(t3[i]));
    }
    assert(t4 =~= offsets);
}

impl Offset {
    /// This offset after a quarter turn about the pivot.
    pub fn quarter_turned(self) -> (o: Offset)
        requires
            valid_offset(self),
        ensures
            o == quarter_turn(self),
    {
        Offset { dx: -self.dy, dy: self.dx }
    }
}

impl ShapeKind {
    /// The shape name at a catalog position, if there is one.
    pub fn from_index(index: usize) -> (kind: Option<ShapeKind>)
        ensures
            index < SHAPE_COUNT ==> kind == Some(kind_at(index as int)),
            index >= SHAPE_COUNT ==> kind is None,
    {
        if index == 0 {
            Some(ShapeKind::N)
        } else if index == 1 {
            Some(ShapeKind::NMirrored)
        } else if index == 2 {
            Some(ShapeKind::T)
        } else if index == 3 {
            Some(ShapeKind::O)
        } else if index == 4 {
            Some(ShapeKind::L)
        } else if index == 5 {
            Some(ShapeKind::LMirrored)
        } else if index == 6 {
            Some(ShapeKind::I)
        } else {
            None
        }
    }
}

/// The four cells of a piece, as offsets from its pivot.
#[derive(Clone, Copy, Debug, PartialEq, Eq)]
pub struct PieceShape {
    offsets: [Offset; 4],
}

impl View for PieceShape {
    type V = Seq<Offset>;

    closed spec fn view(&self) -> Seq<Offset> {
        self.offsets@
    }
}

impl PieceShape {
    /// Validity of a shape.
    pub open spec fn wf(&self) -> bool {
        valid_offsets(self@)
    }

    /// The catalog's shape of the given name.
    pub fn canonical(kind: ShapeKind) -> (shape: PieceShape)
        ensures
            shape.wf(),
            shape@ == canonical_offsets(kind),
    {
        let offsets = match kind {
            ShapeKind::N => [
                Offset { dx: 1, dy: 1 },
                Offset { dx: -1, dy: 1 },
                Offset { dx: 1, dy: 3 },
                Offset { dx: -1, dy: -1 },
            ],
            ShapeKind::NMirrored => [
                Offset { dx: 1, dy: 1 },
                Offset { dx: -1, dy: 1 },
                Offset { dx: 1, dy: -1 },
                Offset { dx: -1, dy: 3 },
            ],
            ShapeKind::T => [
                Offset { dx: 1, dy: 1 },
                Offset { dx: -1, dy: 1 },
                Offset { dx: -1, dy: -1 },
                Offset { dx: -1, dy: 3 },
            ],
            ShapeKind::O => [
                Offset { dx: -1, dy: 1 },
                Offset { dx: -1, dy: -1 },
                Offset { dx: 1, dy: -1 },
                Offset { dx: 1, dy: 1 },
            ],
            ShapeKind::L => [
                Offset { dx: 1, dy: -1 },
                Offset { dx: -1, dy: 3 },
                Offset { dx: -1, dy: -1 },
                Offset { dx: -1, dy: 1 },
            ],
            ShapeKind::LMirrored => [
                Offset { dx: -1, dy: -1 },
                Offset { dx: 1, dy: 3 },
                Offset { dx: 1, dy: -1 },
                Offset { dx: 1, dy: 1 },
            ],
            ShapeKind::I => [
                Offset { dx: 1, dy: 1 },
                Offset { dx: 1, dy: 3 },
                Offset { dx: 1, dy: -1 },
                Offset { dx: 1, dy: -3 },
            ],
        };
        let shape = PieceShape { offsets };
        proof {
            assert(shape@ =~= canonical_offsets(kind));
            lemma_canonical_valid(kind);
        }
        shape
    }

    /// This shape after a quarter turn about its pivot.
    pub fn rotated(&self) -> (shape: PieceShape)
        requires
            self.wf(),
        ensures
            shape.wf(),
            shape@ == turned(self@),
    {
        let shape = PieceShape {
            offsets: [
                self.offsets[0].quarter_turned(),
                self.offsets[1].quarter_turned(),
                self.offsets[2].quarter_turned(),
                self.offsets[3].quarter_turned(),
            ],
        };
        proof {
            assert(shape@ =~= turned(self@));
            lemma_turned_valid(self@);
        }
        shape
    }

    /// The shape's four offsets.
    pub fn offsets(&self) -> (offsets: [Offset; 4])
        ensures
            offsets@ == self@,
    {
        self.offsets
    }
}

/// The random number generator that `rand::thread_rng` hands out. Nothing
/// is known of its state.
#[verifier::external_type_specification]
#[verifier::external_body]
pub struct ExThreadRng(rand::rngs::ThreadRng);

/// `rand::thread_rng` returns the calling thread's generator, seeded by the
/// operating system. Nothing is claimed of it.
pub assume_specification[ rand::thread_rng ]() -> (rng: rand::rngs::ThreadRng)
;

/// `Rng::gen_range` on a thread generator, for `usize`: a value from `low`
/// up to but not including `high`. The call panics when `low >= high`, which
/// the precondition excludes. Which value comes is not known.
#[verifier::external_body]
fn gen_range(rng: &mut rand::rngs::ThreadRng, low: usize, high: usize) -> (value: usize)
    requires
        low < high,
    ensures
        low <= value < high,
{
    rng.gen_range(low, high)
}

/// The catalog's shape at the position that was drawn.
pub fn shape_for_draw(draw: usize) -> (shape: Option<PieceShape>)
    ensures
        draw < SHAPE_COUNT ==> shape is Some && shape->0.wf() && shape->0@ == canonical_offsets(
            kind_at(draw as int),
        ),
        draw >= SHAPE_COUNT ==> shape is None,
{
    match ShapeKind::from_index(draw) {
        Some(kind) => Some(PieceShape::canonical(kind)),
        None => None,
    }
}

/// Draws one of the catalog's shapes at random, each with the same chance.
pub fn generate() -> (shape: PieceShape)
    ensures
        shape.wf(),
        in_catalog(shape@),
{
    let mut rng = rand::thread_rng();
    let draw = gen_range(&mut rng, 0, SHAPE_COUNT);
    match shape_for_draw(draw) {
        Some(shape) => {
            assert(shape@ == canonical_offsets(kind_at(draw as int)));
            shape
        },
        None => unreached(),
    }
}

} // verus!
