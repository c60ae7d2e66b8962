use std::collections::{HashMap, HashSet};
use vstd::prelude::*;
use vstd::std_specs::hash::group_hash_axioms;
use crate::coord::Coord;
use crate::rect::Rect;
use crate::room::Room;

verus! {

broadcast use group_hash_axioms;

/// Whether `c` lies on the drawable surface: the quadrant where neither `x` nor `y`
/// is negative.
pub open spec fn on_surface(c: Coord) -> bool {
    c.x >= 0 && c.y >= 0
}

/// The cells of `cells` that lie on the drawable surface, as a set of `(x, y)` pairs.
pub open spec fn footprint_of(cells: Seq<Coord>) -> Set<(int, int)> {
    Set::new(
        |p: (int, int)|
            exists|k: int|
                0 <= k < cells.len() && on_surface(cells[k]) && #[trigger] cells[k]@ == p,
    )
}

/// The cells on the drawable surface that at least one of `rooms` covers.
pub open spec fn footprint_of_rooms<R: Room + ?Sized>(rooms: Seq<&R>) -> Set<(int, int)> {
    Set::new(
        |p: (int, int)|
            exists|i: int|
                0 <= i < rooms.len() && #[trigger] footprint_of(rooms[i].cells()).contains(p),
    )
}

/// One more listed cell adds itself to the footprint where it lies on the drawable
/// surface, and nothing where it does not.
pub proof fn lemma_footprint_of_push(cells: Seq<Coord>, c: Coord)
    ensures
        footprint_of(cells.push(c)) == if on_surface(c) {
            footprint_of(cells).insert(c@)
        } else {
            footprint_of(cells)
        },
{
    let more = cells.push(c);
    assert forall|p: (int, int)|
        footprint_of(more).contains(p) <==> footprint_of(cells).contains(p) || (on_surface(c) && p
            == c@) by {
        if footprint_of(more).contains(p) {
            let k = choose|k: int|
                0 <= k < more.len() && on_surface(more[k]) && #[trigger] more[k]@ == p;
            if k < cells.len() {
                assert(cells[k]@ == p);
            }
        }
        if footprint_of(cells).contains(p) {
            let k = choose|k: int|
                0 <= k < cells.len() && on_surface(cells[k]) && #[trigger] cells[k]@ == p;
            assert(more[k]@ == p);
        }
        if on_surface(c) && p == c@ {
            assert(more[cells.len() as int]@ == p);
        }
    }
    assert(footprint_of(more) =~= if on_surface(c) {
        footprint_of(cells).insert(c@)
    } else {
        footprint_of(cells)
    });
}

/// One more room adds its own footprint to that of the rooms before it.
pub proof fn lemma_footprint_of_rooms_push<R: Room + ?Sized>(rooms: Seq<&R>, room: &R)
    ensures
        footprint_of_rooms(rooms.push(room)) == footprint_of_rooms(rooms).union(
            footprint_of(room.cells()),
        ),
{
    let more = rooms.push(room);
    assert forall|p: (int, int)|
        footprint_of_rooms(more).contains(p) <==> footprint_of_rooms(rooms).contains(p)
            || footprint_of(room.cells()).contains(p) by {
        if footprint_of_rooms(more).contains(p) {
            let i = choose|i: int|
                0 <= i < more.len() && #[trigger] footprint_of(more[i].cells()).contains(p);
            if i < rooms.len() {
                assert(footprint_of(rooms[i].cells()).contains(p));
            }
        }
        if footprint_of_rooms(rooms).contains(p) {
            let i = choose|i: int|
                0 <= i < rooms.len() && #[trigger] footprint_of(rooms[i].cells()).contains(p);
            assert(footprint_of(more[i].cells()).contains(p));
        }
        if footprint_of(room.cells()).contains(p) {
            assert(footprint_of(more[rooms.len() as int].cells()).contains(p));
        }
    }
    assert(footprint_of_rooms(more) =~= footprint_of_rooms(rooms).union(
        footprint_of(room.cells()),
    ));
}

/// A single cell covers itself where it lies on the drawable surface, and nothing
/// where it does not.
pub proof fn lemma_footprint_of_coord(c: Coord)
    ensures
        footprint_of(c.cells()) == if on_surface(c) {
            set![c@]
        } else {
            Set::<(int, int)>::empty()
        },
{
    let none = Seq::<Coord>::empty();
    assert(c.cells() =~= none.push(c));
    assert(footprint_of(none) =~= Set::<(int, int)>::empty());
    lemma_footprint_of_push(none, c);
}

/// A rectangle covers the part of its block that lies on the drawable surface and
/// within the range of `i32`.
pub proof fn lemma_footprint_of_rect(r: Rect)
    ensures
        footprint_of(r.cells()) == Set::new(
            |p: (int, int)|
                0 <= p.0 <= i32::MAX && 0 <= p.1 <= i32::MAX && r.left_x <= p.0 < r.left_x
                    + r.width && r.top_y <= p.1 < r.top_y + r.height,
        ),
{
    let cells = r.cells();
    let block = Set::new(
        |p: (int, int)|
            0 <= p.0 <= i32::MAX && 0 <= p.1 <= i32::MAX && r.left_x <= p.0 < r.left_x + r.width
                && r.top_y <= p.1 < r.top_y + r.height,
    );
    assert forall|p: (int, int)| footprint_of(cells).contains(p) <==> block.contains(p) by {
        if footprint_of(cells).contains(p) {
            let k = choose|k: int|
                0 <= k < cells.len() && on_surface(cells[k]) && #[trigger] cells[k]@ == p;
            r.lemma_cells_within(k);
        }
        if block.contains(p) {
            let c = Coord { x: p.0 as i32, y: p.1 as i32 };
            r.lemma_cells_cover(c);
            let k = choose|k: int| 0 <= k < cells.len() && cells[k] == c;
            assert(on_surface(cells[k]) && cells[k]@ == p);
        }
    }
    assert(footprint_of(cells) =~= block);
}

/// The occupied cells of the drawable surface, kept row by row: each occupied row
/// has a bucket with the columns occupied in it.
pub struct FootprintIndex {
    rows: HashMap<u32, HashSet<u32>>,
}

impl View for FootprintIndex {
    type V = Set<(int, int)>;

    /// The occupied cells, as `(x, y)` pairs.
    closed spec fn view(&self) -> Set<(int, int)> {
        Set::new(
            |p: (int, int)|
                0 <= p.0 <= u32::MAX && 0 <= p.1 <= u32::MAX && self.rows@.contains_key(p.1 as u32)
                    && self.rows@[p.1 as u32]@.contains(p.0 as u32),
        )
    }
}

impl FootprintIndex {
    /// A bucket is made when its row gets its first column, so none is empty.
    #[verifier::type_invariant]
    spec fn buckets_are_inhabited(&self) -> bool {
        forall|y: u32| #[trigger]
            self.rows@.contains_key(y) ==> exists|x: u32| self.rows@[y]@.contains(x)
    }

    /// An index with no occupied cell.
    pub fn new() -> (index: Self)
        ensures
            index@ == Set::<(int, int)>::empty(),
    {
        let index = FootprintIndex { rows: HashMap::new() };
        assert(index@ =~= Set::<(int, int)>::empty());
        index
    }

    /// Marks `coord` as occupied if it lies on the drawable surface, and leaves the
    /// index as it is otherwise.
    pub fn insert(&mut self, coord: &Coord)
        ensures
            final(self)@ == if on_surface(*coord) {
                old(self)@.insert(coord@)
            } else {
                old(self)@
            },
    {
        proof {
            use_type_invariant(&*self);
        }
        let x_u32: Result<u32, _> = coord.x.try_into();
        let y_u32: Result<u32, _> = coord.y.try_into();
        match (x_u32, y_u32) {
            (Err(_), _) => (),
            (_, Err(_)) => (),
            (Ok(positive_x), Ok(positive_y)) => {
                // The map leaves the index while the bucket is made and filled: a new
                // bucket is empty until its first column is in.
                let mut rows = HashMap::new();
                std::mem::swap(&mut self.rows, &mut rows);
                let ghost before = rows@;
                let bucket = rows.entry(positive_y).or_insert(HashSet::new());
                bucket.insert(positive_x);
                proof {
                    assert forall|y: u32| #[trigger] rows@.contains_key(y) implies exists|x: u32|
                        rows@[y]@.contains(x) by {
                        if y == positive_y {
                            assert(rows@[y]@.contains(positive_x));
                        } else {
                            let x = choose|x: u32| before[y]@.contains(x);
                            assert(rows@[y]@.contains(x));
                        }
                    }
                }
                self.rows = rows;
                assert(self@ =~= old(self)@.insert(coord@));
            },
        }
    }

    /// Marks every cell of `room` that lies on the drawable surface as occupied.
    pub fn add_room<R: Room + ?Sized>(&mut self, room: &R)
        ensures
            final(self)@ == old(self)@.union(footprint_of(room.cells())),
    {
        let coords = room.to_coords();
        assert(footprint_of(coords@.take(0)) =~= Set::<(int, int)>::empty());
        assert(self@ =~= old(self)@.union(footprint_of(coords@.take(0))));
        for i in 0..coords.len()
            invariant
                coords@ == room.cells(),
                self@ == old(self)@.union(footprint_of(coords@.take(i as int))),
        {
            self.insert(&coords[i]);
            proof {
                let listed = coords@.take(i as int);
                assert(coords@.take(i + 1) =~= listed.push(coords@[i as int]));
                lemma_footprint_of_push(listed, coords@[i as int]);
                assert(self@ =~= old(self)@.union(footprint_of(coords@.take(i + 1))));
            }
        }
        assert(coords@.take(coords@.len() as int) =~= coords@);
    }

    /// Gathers the cells that `rooms` cover on the drawable surface.
    pub fn from_rooms<R: Room + ?Sized>(rooms: &[&R]) -> (index: Self)
        ensures
            index@ == footprint_of_rooms(rooms@),
    {
        let mut index = FootprintIndex::new();
        assert(index@ =~= footprint_of_rooms(rooms@.take(0)));
        for i in 0..rooms.len()
            invariant
                index@ == footprint_of_rooms(rooms@.take(i as int)),
        {
            index.add_room(rooms[i]);
            proof {
                assert(rooms@.take(i + 1) =~= rooms@.take(i as int).push(rooms@[i as int]));
                lemma_footprint_of_rooms_push(rooms@.take(i as int), rooms@[i as int]);
            }
        }
        assert(rooms@.take(rooms@.len() as int) =~= rooms@);
        index
    }

    /// The columns occupied in row `y`, or `None` where no cell of the row is
    /// occupied.
    pub fn row(&self, y: u32) -> (bucket: Option<&HashSet<u32>>)
        ensures
            bucket is Some <==> exists|x: u32| self@.contains((x as int, y as int)),
            bucket matches Some(columns) ==> forall|x: u32|
                columns@.contains(x) <==> self@.contains((x as int, y as int)),
    {
        proof {
            use_type_invariant(self);
        }
        let bucket = self.rows.get(&y);
        proof {
            if let Some(columns) = bucket {
                let x = choose|x: u32| columns@.contains(x);
                assert(self@.contains((x as int, y as int)));
            }
        }
        bucket
    }

    /// Whether the cell in column `x` of row `y` is occupied.
    pub fn contains(&self, x: u32, y: u32) -> (occupied: bool)
        ensures
            occupied == self@.contains((x as int, y as int)),
    {
        match self.rows.get(&y) {
            Some(columns) => columns.contains(&x),
            None => false,
        }
    }
}

} // verus!
