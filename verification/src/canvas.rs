use std::collections::HashSet;
use vstd::prelude::*;
use vstd::std_specs::hash::group_hash_axioms;
use vstd::string::StringExecFns;
use crate::footprint::{footprint_of_rooms, FootprintIndex};
use crate::room::Room;

verus! {

broadcast use group_hash_axioms;

/// The glyph of a wall cell.
pub const WALL: char = '#';

/// The glyph of a free cell.
pub const BLANK: char = ' ';

/// The drawing surface: `width` columns by `height` rows, with a wall all around.
/// It takes `width >= 2` and `height >= 2` to leave room for the walls; on a
/// smaller canvas every cell is border.
#[derive(Clone, Copy, Debug, PartialEq, Eq, Structural)]
pub struct Canvas {
    pub width: u32,
    pub height: u32,
}

impl Canvas {
    /// Whether the cell in column `col` of row `row` belongs to the surrounding wall.
    pub open spec fn on_border(&self, col: int, row: int) -> bool {
        row == 0 || row == self.height - 1 || col == 0 || col == self.width - 1
    }

    /// The glyph drawn in column `col` of row `row`: a wall on the border and on
    /// every occupied cell of the interior, a blank elsewhere.
    pub open spec fn glyph(&self, footprint: Set<(int, int)>, col: int, row: int) -> char {
        if self.on_border(col, row) || footprint.contains((col, row)) {
            WALL
        } else {
            BLANK
        }
    }

    /// The text of row `row`: one glyph for each column, from left to right.
    pub open spec fn row_text(&self, footprint: Set<(int, int)>, row: int) -> Seq<char> {
        Seq::new(self.width as nat, |col: int| self.glyph(footprint, col, row))
    }

    /// Whether `rows` is the drawing of `footprint` on this canvas: one row of text
    /// for each row of the canvas, from top to bottom.
    pub open spec fn shows(&self, footprint: Set<(int, int)>, rows: Seq<String>) -> bool {
        &&& rows.len() == self.height
        &&& forall|row: int|
            0 <= row < self.height ==> (#[trigger] rows[row])@ == self.row_text(footprint, row)
    }

    /// The first `n` glyphs of a row that is wall from end to end.
    spec fn wall_text(n: int) -> Seq<char> {
        Seq::new(n as nat, |col: int| WALL)
    }

    /// The first `n` glyphs of a row below the top wall and above the bottom wall,
    /// in which `columns` are the occupied columns.
    spec fn inner_text(&self, columns: Set<u32>, n: int) -> Seq<char> {
        Seq::new(
            n as nat,
            |col: int|
                if col == 0 || col == self.width - 1 || columns.contains(col as u32) {
                    WALL
                } else {
                    BLANK
                },
        )
    }

    /// A row that is wall from end to end.
    fn wall_line(&self) -> (line: String)
        ensures
            line@ == Self::wall_text(self.width as int),
    {
        let mut line = String::new();
        for x in 0..self.width
            invariant
                line@ == Self::wall_text(x as int),
        {
            proof {
                reveal_strlit("#");
            }
            line.append("#");
            assert(line@ =~= Self::wall_text(x + 1));
        }
        line
    }

    /// A row with a wall at either end and, between them, a wall in each column of
    /// `columns` and a blank in every other.
    fn inner_line(&self, columns: &HashSet<u32>) -> (line: String)
        ensures
            line@ == self.inner_text(columns@, self.width as int),
    {
        let mut line = String::new();
        for x in 0..self.width
            invariant
                line@ == self.inner_text(columns@, x as int),
        {
            proof {
                reveal_strlit("#");
                reveal_strlit(" ");
            }
            if x == 0 || x == self.width - 1 || columns.contains(&x) {
                line.append("#");
            } else {
                line.append(" ");
            }
            assert(line@ =~= self.inner_text(columns@, x + 1));
        }
        line
    }

    /// Draws the occupied cells of `index` inside the wall, row by row from the top.
    pub fn render(&self, index: &FootprintIndex) -> (rows: Vec<String>)
        ensures
            self.shows(index@, rows@),
    {
        let header = self.wall_line();
        let inside = self.inner_line(&HashSet::new());
        let mut rows: Vec<String> = Vec::new();
        for y in 0..self.height
            invariant
                header@ == Self::wall_text(self.width as int),
                inside@ == self.inner_text(Set::empty(), self.width as int),
                rows@.len() == y,
                forall|row: int|
                    0 <= row < y ==> (#[trigger] rows@[row])@ == self.row_text(index@, row),
        {
            let line = if y == 0 || y == self.height - 1 {
                header.clone()
            } else {
                match index.row(y) {
                    Some(columns) => self.inner_line(columns),
                    None => inside.clone(),
                }
            };
            assert(line@ =~= self.row_text(index@, y as int));
            rows.push(line);
        }
        rows
    }

    /// Draws the cells that `rooms` cover inside the wall, row by row from the top.
    pub fn draw<R: Room + ?Sized>(&self, rooms: &[&R]) -> (rows: Vec<String>)
        ensures
            self.shows(footprint_of_rooms(rooms@), rows@),
    {
        let index = FootprintIndex::from_rooms(rooms);
        self.render(&index)
    }

    /// A canvas shows a footprint in one way only: two drawings of the same
    /// footprint have the same rows with the same text.
    pub proof fn lemma_drawing_is_determined(
        &self,
        footprint: Set<(int, int)>,
        first: Seq<String>,
        second: Seq<String>,
    )
        requires
            self.shows(footprint, first),
            self.shows(footprint, second),
        ensures
            first.len() == second.len(),
            forall|row: int| 0 <= row < first.len() ==> first[row]@ == second[row]@,
    {
    }

    /// Drawing the same rooms twice gives the same picture: as many rows, and the
    /// same text in each.
    pub proof fn lemma_same_rooms_same_drawing<R: Room + ?Sized>(
        &self,
        rooms: Seq<&R>,
        first: Seq<String>,
        second: Seq<String>,
    )
        requires
            self.shows(footprint_of_rooms(rooms), first),
            self.shows(footprint_of_rooms(rooms), second),
        ensures
            first.len() == second.len(),
            forall|row: int| 0 <= row < first.len() ==> first[row]@ == second[row]@,
    {
        self.lemma_drawing_is_determined(footprint_of_rooms(rooms), first, second);
    }
}

} // verus!
