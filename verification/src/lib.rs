//! A bordered ASCII map: rooms list the grid cells they cover, a footprint index
//! gathers those cells by row, and a canvas draws the walls.

pub mod canvas;
pub mod coord;
pub mod footprint;
pub mod rect;
pub mod room;

pub use canvas::Canvas;
pub use coord::Coord;
pub use footprint::FootprintIndex;
pub use rect::Rect;
pub use room::Room;
