//! Which shape and palette each object of the render texture template gets.
use vstd::prelude::*;

verus! {

/// Number of objects the template spawns.
pub const SKETCH_OBJECT_COUNT: usize = 18;

/// Number of color palettes the objects cycle through.
pub const PALETTE_COUNT: usize = 3;

/// Circumradius of the polygons, in pixels.
pub const POLYGON_RADIUS: u32 = 70;

/// Side of the squares, in pixels.
pub const SQUARE_SIDE: u32 = 95;

/// The mesh of one object.
#[derive(Clone, Copy, Debug, PartialEq, Eq, Structural)]
pub enum SketchShape {
    /// A circle of the given radius, in pixels.
    Circle { radius: u32 },
    /// A regular polygon with the given number of sides.
    Polygon { sides: u32 },
    /// A square of side `SQUARE_SIDE`.
    Square,
}

/// The shape of object `index`: objects cycle through circle, polygon and
/// square; circles grow in four steps of 12 pixels from 54, polygons have
/// three to eight sides.
pub open spec fn sketch_shape_spec(index: nat) -> SketchShape {
    if index % 3 == 0 {
        SketchShape::Circle { radius: (54 + 12 * (index % 4)) as u32 }
    } else if index % 3 == 1 {
        SketchShape::Polygon { sides: (3 + index % 6) as u32 }
    } else {
        SketchShape::Square
    }
}

/// Whether two shapes are of the same kind.
pub open spec fn same_kind(a: SketchShape, b: SketchShape) -> bool {
    match (a, b) {
        (SketchShape::Circle { .. }, SketchShape::Circle { .. }) => true,
        (SketchShape::Polygon { .. }, SketchShape::Polygon { .. }) => true,
        (SketchShape::Square, SketchShape::Square) => true,
        _ => false,
    }
}

/// Objects take circle, polygon and square in turn, for every index: the kind
/// depends on the index modulo 3 alone, circles have radius 54, 66, 78 or 90
/// (54 plus 12 for each step of the index modulo 4), polygons have 3 to 8
/// sides (3 plus the index modulo 6), and the whole pattern repeats every 12
/// objects.
pub proof fn lemma_shapes_cycle(i: nat)
    ensures
        i % 3 == 0 ==> (sketch_shape_spec(i) == (SketchShape::Circle {
            radius: (54 + 12 * (i % 4)) as u32,
        })),
        i % 3 == 1 ==> (sketch_shape_spec(i) == (SketchShape::Polygon { sides: (3 + i % 6) as u32 })),
        i % 3 == 2 ==> (sketch_shape_spec(i) == SketchShape::Square),
        same_kind(sketch_shape_spec(i), sketch_shape_spec(i + 3)),
        sketch_shape_spec(i) == sketch_shape_spec(i + 12),
        (sketch_shape_spec(i) is Circle) ==> (54 <= sketch_shape_spec(i)->radius
            && sketch_shape_spec(i)->radius <= 90),
        (sketch_shape_spec(i) is Polygon) ==> (3 <= sketch_shape_spec(i)->sides
            && sketch_shape_spec(i)->sides <= 8),
{
    assert((i + 3) % 3 == i % 3);
    assert((i + 12) % 3 == i % 3);
    assert((i + 12) % 4 == i % 4);
    assert((i + 12) % 6 == i % 6);
}

/// The shape of object `index`.
pub fn sketch_shape(index: usize) -> (shape: SketchShape)
    ensures
        shape == sketch_shape_spec(index as nat),
{
    if index % 3 == 0 {
        SketchShape::Circle { radius: (54 + 12 * (index % 4)) as u32 }
    } else if index % 3 == 1 {
        SketchShape::Polygon { sides: (3 + index % 6) as u32 }
    } else {
        SketchShape::Square
    }
}

/// The palette of object `index`: objects cycle through the palettes.
pub fn palette_index(index: usize) -> (palette: usize)
    ensures
        palette == index % PALETTE_COUNT,
        palette < PALETTE_COUNT,
{
    index % PALETTE_COUNT
}

} // verus!
