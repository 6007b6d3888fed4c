//! The integer skeleton of the sprite grid sketches: which cells the grid has,
//! which sprite image each cell shows, and which way the arrow keys push the
//! field. Positions, jitter and drift are computed in floating point by the
//! caller from these values.
use vstd::prelude::*;

verus! {

/// Columns of the sprite grid trail sketch.
pub const TRAIL_COLUMNS: usize = 9;

/// Rows of the sprite grid trail sketch.
pub const TRAIL_ROWS: usize = 5;

/// Columns of the feedback sprite grid sketch.
pub const FEEDBACK_COLUMNS: usize = 11;

/// Rows of the feedback sprite grid sketch.
pub const FEEDBACK_ROWS: usize = 7;

/// Step by which consecutive cells of the trail sketch move through the sprite images.
pub const TRAIL_SPRITE_STRIDE: usize = 5;

/// One cell of a sprite grid.
#[derive(Clone, Copy, Debug, PartialEq, Eq, Structural)]
pub struct GridCell {
    /// Column, from the left.
    pub column: usize,
    /// Row, from the bottom.
    pub row: usize,
    /// Position of the cell in row-major order.
    pub index: usize,
}

/// The cells of a `columns` by `rows` grid in row-major order: row by row, and
/// within a row column by column; cell `k` is at column `k mod columns`, row
/// `k div columns`.
pub fn grid_cells(columns: usize, rows: usize) -> (cells: Vec<GridCell>)
    requires
        columns * rows <= usize::MAX,
    ensures
        cells.len() == columns * rows,
        forall|k: int|
            0 <= k < cells.len() ==> {
                &&& #[trigger] cells@[k].index == k
                &&& cells@[k].column == k % (columns as int)
                &&& cells@[k].row == k / (columns as int)
                &&& cells@[k].column < columns
                &&& cells@[k].row < rows
            },
{
    let mut cells: Vec<GridCell> = Vec::new();
    let mut y: usize = 0;
    while y < rows
        invariant
            columns * rows <= usize::MAX,
            y <= rows,
            cells.len() == y * columns,
            forall|k: int|
                0 <= k < cells.len() ==> {
                    &&& #[trigger] cells@[k].index == k
                    &&& cells@[k].column == k % (columns as int)
                    &&& cells@[k].row == k / (columns as int)
                    &&& cells@[k].column < columns
                    &&& cells@[k].row < rows
                },
        decreases rows - y,
    {
        proof {
            assert(y * columns + columns <= columns * rows) by (nonlinear_arith)
                requires
                    y < rows,
            ;
        }
        let mut x: usize = 0;
        while x < columns
            invariant
                columns * rows <= usize::MAX,
                y < rows,
                x <= columns,
                y * columns + columns <= columns * rows,
                cells.len() == y * columns + x,
                forall|k: int|
                    0 <= k < cells.len() ==> {
                        &&& #[trigger] cells@[k].index == k
                        &&& cells@[k].column == k % (columns as int)
                        &&& cells@[k].row == k / (columns as int)
                        &&& cells@[k].column < columns
                        &&& cells@[k].row < rows
                    },
            decreases columns - x,
        {
            let index = y * columns + x;
            proof {
                assert((index as int) % (columns as int) == x as int && (index as int) / (columns as int) == y as int) by (nonlinear_arith)
                    requires
                        index == y * columns + x,
                        x < columns,
                ;
            }
            cells.push(GridCell { column: x, row: y, index });
            x = x + 1;
        }
        y = y + 1;
        proof {
            assert(cells.len() == y * columns) by (nonlinear_arith)
                requires
                    cells.len() == (y - 1) * columns + columns,
            ;
        }
    }
    proof {
        assert(y * columns == columns * rows) by (nonlinear_arith)
            requires
                y == rows,
        ;
    }
    cells
}

/// The sprite image of cell `index` in the trail sketch: consecutive cells step
/// through the `image_count` images five at a time.
pub fn trail_sprite_index(index: usize, image_count: usize) -> (image: usize)
    requires
        image_count > 0,
        index * TRAIL_SPRITE_STRIDE <= usize::MAX,
    ensures
        image as int == (index as int * TRAIL_SPRITE_STRIDE as int) % (image_count as int),
        image < image_count,
{
    (index * TRAIL_SPRITE_STRIDE) % image_count
}

/// An index into a list of `len` items from a raw pick that may run past its
/// end: picks beyond the last item choose the last item.
pub fn clamp_index(raw: usize, len: usize) -> (index: usize)
    requires
        len > 0,
    ensures
        index == if raw < len {
            raw
        } else {
            (len - 1) as usize
        },
        index < len,
{
    if raw < len - 1 {
        raw
    } else {
        len - 1
    }
}

/// The direction the arrow keys push the field in: one unit right for the
/// right arrow, left for the left arrow, up for the up arrow and down for the
/// down arrow; opposite keys cancel.
pub fn arrow_direction(left: bool, right: bool, down: bool, up: bool) -> (direction: (i32, i32))
    ensures
        direction.0 == (if right {
            1int
        } else {
            0int
        }) - (if left {
            1int
        } else {
            0int
        }),
        direction.1 == (if up {
            1int
        } else {
            0int
        }) - (if down {
            1int
        } else {
            0int
        }),
{
    let mut x: i32 = 0;
    let mut y: i32 = 0;
    if left {
        x = x - 1;
    }
    if right {
        x = x + 1;
    }
    if down {
        y = y - 1;
    }
    if up {
        y = y + 1;
    }
    (x, y)
}

/// Whether the arrow keys steer the field this frame; otherwise it drifts on
/// its own.
pub fn is_steered(direction: (i32, i32)) -> (steered: bool)
    ensures
        steered == (direction.0 != 0 || direction.1 != 0),
{
    direction.0 != 0 || direction.1 != 0
}

} // verus!
