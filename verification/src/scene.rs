//! Static images drawn once and then left alone.

use vstd::prelude::*;

verus! {

use crate::led::{Animation, LedMatrix, WriteLeds};

/// Draw a static image to the LED matrix: cell `[y][x]` of the grid goes
/// to coordinate `(x, y)`.  Pixels the grid does not cover are left as
/// they are.
pub struct Static<Color>(pub Vec<Vec<Color>>);

impl<Color> Static<Color> {
    /// A scene filled with `rows` rows of `columns` copies of `color`.
    pub fn filled(columns: usize, rows: usize, color: Color) -> (s: Static<Color>) where
        Color: Copy,

        ensures
            s.0@.len() == rows,
            forall|y: int|
                0 <= y < rows ==> (#[trigger] s.0@[y])@ =~= Seq::new(
                    columns as nat,
                    |x: int| color,
                ),
    {
        let mut grid: Vec<Vec<Color>> = Vec::new();
        let mut y: usize = 0;
        while y < rows
            invariant
                y <= rows,
                grid@.len() == y,
                forall|j: int|
                    0 <= j < y ==> (#[trigger] grid@[j])@ =~= Seq::new(
                        columns as nat,
                        |x: int| color,
                    ),
            decreases rows - y,
        {
            let mut row: Vec<Color> = Vec::new();
            let mut x: usize = 0;
            while x < columns
                invariant
                    x <= columns,
                    row@.len() == x,
                    forall|i: int| 0 <= i < x ==> row@[i] == color,
                decreases columns - x,
            {
                row.push(color);
                x = x + 1;
            }
            assert(row@ =~= Seq::new(columns as nat, |x: int| color));
            grid.push(row);
            y = y + 1;
        }
        Static(grid)
    }
}

impl<Color> Default for Static<Color> {
    /// An empty scene: its init pass paints nothing.
    fn default() -> (s: Static<Color>)
        ensures
            s.0@.len() == 0,
    {
        Static(Vec::new())
    }
}

impl<C, B, Color> Animation<C> for Static<Color> where
    C: LedMatrix<Driver = B>,
    B: WriteLeds<Color = Color>,
    Color: Copy,
 {
    /// Paint the grid once; pixels the grid does not cover keep their
    /// colors.  The returned interval postpones any further update for
    /// the life of the animation.
    fn init(&mut self, matrix: &mut C) -> (rate: Option<u64>)
        ensures
            rate == Some(u64::MAX),
            *final(self) == *old(self),
            forall|x: int, y: int|
                0 <= x < old(matrix).x_spec() && 0 <= y < old(matrix).y_spec() && y < old(
                    self,
                ).0@.len() && x < old(self).0@[y]@.len() ==> final(matrix).buf_spec()[#[trigger] old(
                    matrix,
                ).offset_spec(x, y)] == old(self).0@[y]@[x],
            forall|o: int|
                0 <= o < final(matrix).buf_spec().len() && (forall|x: int, y: int|
                    0 <= x < old(matrix).x_spec() && 0 <= y < old(matrix).y_spec() && y < old(
                        self,
                    ).0@.len() && x < old(self).0@[y]@.len() ==> #[trigger] old(
                        matrix,
                    ).offset_spec(x, y) != o) ==> final(matrix).buf_spec()[o] == #[trigger] old(
                    matrix,
                ).buf_spec()[o],
    {
        crate::led::paint_image(matrix, &self.0);
        Some(u64::MAX)
    }
}

} // verus!
