use vstd::prelude::*;

verus! {

/// One cell of the grid. `y` grows downward: a smaller `y` is nearer the top.
#[derive(Debug, PartialEq, Eq, Structural)]
pub struct Coord {
    pub x: i32,
    pub y: i32,
}

impl View for Coord {
    type V = (int, int);

    /// The cell as the pair `(x, y)`.
    open spec fn view(&self) -> (int, int) {
        (self.x as int, self.y as int)
    }
}

impl Coord {
    /// Creates a new [`Coord`].
    pub fn new(x: i32, y: i32) -> (c: Self)
        ensures
            c == (Coord { x, y }),
    {
        Self { x, y }
    }
}

} // verus!
