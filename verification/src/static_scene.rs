//! A static image played as an animation: the older sibling of `scene`,
//! kept for callers that still use its name.

use vstd::prelude::*;

verus! {

use crate::led::{Animation, LedMatrix, WriteLeds};

/// Draw a static image to the LED matrix: cell `[y][x]` of the grid goes
/// to coordinate `(x, y)`.  Pixels the grid does not cover are left as
/// they are.
pub struct Scene<Color>(pub Vec<Vec<Color>>);

impl<Color> Default for Scene<Color> {
    /// An empty scene: its init pass paints nothing.
    fn default() -> (s: Scene<Color>)
        ensures
            s.0@.len() == 0,
    {
        Scene(Vec::new())
    }
}

impl<C, B, Color> Animation<C> for Scene<Color> where
    C: LedMatrix<Driver = B>,
    B: WriteLeds<Color = Color>,
    Color: Copy,
 {
    /// Paint the grid once; pixels the grid does not cover keep their
    /// colors.  The returned interval postpones any further update for
    /// the life of the animation.
    fn init(&mut self, matrix: &mut C) -> (rate: Option<u64>)
        ensures
            rate == Some(u64::MAX),
            *final(self) == *old(self),
            forall|x: int, y: int|
                0 <= x < old(matrix).x_spec() && 0 <= y < old(matrix).y_spec() && y < old(
                    self,
                ).0@.len() && x < old(self).0@[y]@.len() ==> final(matrix).buf_spec()[#[trigger] old(
                    matrix,
                ).offset_spec(x, y)] == old(self).0@[y]@[x],
            forall|o: int|
                0 <= o < final(matrix).buf_spec().len() && (forall|x: int, y: int|
                    0 <= x < old(matrix).x_spec() && 0 <= y < old(matrix).y_spec() && y < old(
                        self,
                    ).0@.len() && x < old(self).0@[y]@.len() ==> #[trigger] old(
                        matrix,
                    ).offset_spec(x, y) != o) ==> final(matrix).buf_spec()[o] == #[trigger] old(
                    matrix,
                ).buf_spec()[o],
    {
        crate::led::paint_image(matrix, &self.0);
        Some(u64::MAX)
    }
}

} // verus!
