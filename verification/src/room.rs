use vstd::prelude::*;
use crate::coord::Coord;

verus! {

/// A shape that can list the grid cells it covers.
pub trait Room {
    /// The cells this room covers, in the order in which `to_coords` lists them.
    spec fn cells(&self) -> Seq<Coord>;

    /// Lists the cells this room covers.
    fn to_coords(&self) -> (coords: Vec<Coord>)
        ensures
            coords@ == self.cells(),
    ;
}

/// A single cell is a room of its own: it covers itself and nothing else.
impl Room for Coord {
    /// The cell itself, once.
    open spec fn cells(&self) -> Seq<Coord> {
        seq![*self]
    }

    /// Lists a copy of the cell, and nothing else.
    fn to_coords(&self) -> (coords: Vec<Coord>)
        ensures
            coords@.len() == 1,
            coords@[0] == *self,
    {
        let mut v = Vec::new();
        let copy = Coord::new(self.x, self.y);
        v.push(copy);
        v
    }
}

} // verus!
