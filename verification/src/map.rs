//! The shared spatial map: the tile grid, per-tile visibility,
//! revealed and blocked flags, the per-tile occupant index, and the
//! room list laid down by the dungeon generator.

use vstd::prelude::*;
use crate::rect::Rect;
use crate::rng::{rng_seeded, rng_range};

verus! {

broadcast use crate::grid::lemma_row_major_in_range;

/// Terrain of a single grid cell.
#[derive(Clone, Copy, PartialEq, Eq, Structural, Debug)]
pub enum TileType {
    Wall,
    Floor,
}

pub const MAP_WIDTH: i32 = 80;

pub const MAP_HEIGHT: i32 = 50;

pub const MAX_ROOMS: i32 = 30;

pub const MIN_ROOM_SIZE: i32 = 6;

pub const MAX_ROOM_SIZE: i32 = 10;

pub struct GameMap {
    pub tiles: Vec<TileType>,
    pub rooms: Vec<Rect>,
    pub width: i32,
    pub height: i32,
    pub revealed_tiles: Vec<bool>,
    pub visible_tiles: Vec<bool>,
    pub blocked: Vec<bool>,
    pub tile_content: Vec<Vec<usize>>,
}

impl GameMap {
    /// Structural well-formedness: positive dimensions and one entry
    /// per cell in every per-tile array.
    pub open spec fn inv(self) -> bool {
        &&& 0 < self.width
        &&& 0 < self.height
        &&& self.width * self.height <= i32::MAX
        &&& self.tiles@.len() == self.width * self.height
        &&& self.revealed_tiles@.len() == self.tiles@.len()
        &&& self.visible_tiles@.len() == self.tiles@.len()
        &&& self.blocked@.len() == self.tiles@.len()
        &&& self.tile_content@.len() == self.tiles@.len()
    }

    pub open spec fn in_bounds(self, x: int, y: int) -> bool {
        0 <= x < self.width && 0 <= y < self.height
    }

    /// Row-major cell index.
    pub open spec fn idx_of(self, x: int, y: int) -> int {
        y * self.width + x
    }

    /// A room's interior: every cell strictly inside the rectangle's
    /// border lies in bounds and carries Floor.
    pub open spec fn room_interior_floor(self, r: Rect) -> bool {
        forall|x: int, y: int|
            r.x1 < x <= r.x2 && r.y1 < y <= r.y2 ==> self.in_bounds(x, y)
                && self.tiles@[#[trigger] self.idx_of(x, y)] == TileType::Floor
    }

    /// No two accepted rooms' rectangles intersect.
    pub open spec fn rooms_disjoint(self) -> bool {
        forall|i: int, j: int|
            0 <= i < j < self.rooms@.len() ==> !(#[trigger] self.rooms@[i].spec_intersect(
                self.rooms@[j],
            ))
    }

    /// Every accepted room's interior is carved to Floor.
    pub open spec fn rooms_carved(self) -> bool {
        forall|i: int|
            0 <= i < self.rooms@.len() ==> self.room_interior_floor(#[trigger] self.rooms@[i])
    }

    /// Every accepted room sits inside a one-tile border of the grid.
    pub open spec fn rooms_in_border(self) -> bool {
        forall|i: int|
            0 <= i < self.rooms@.len() ==> {
                let r = #[trigger] self.rooms@[i];
                0 <= r.x1 && r.x1 < r.x2 && r.x2 < self.width - 1 && 0 <= r.y1 && r.y1 < r.y2
                    && r.y2 < self.height - 1
            }
    }

    /// Every accepted room's width and height lie within the sampled
    /// size range.
    pub open spec fn rooms_sized(self) -> bool {
        forall|i: int|
            0 <= i < self.rooms@.len() ==> {
                let r = #[trigger] self.rooms@[i];
                MIN_ROOM_SIZE <= r.x2 - r.x1 <= MAX_ROOM_SIZE && MIN_ROOM_SIZE <= r.y2 - r.y1
                    <= MAX_ROOM_SIZE
            }
    }

    /// The outermost ring of cells is all Wall.
    pub open spec fn border_walls(self) -> bool {
        &&& forall|x: int|
            0 <= x < self.width ==> self.tiles@[#[trigger] self.idx_of(x, 0)] == TileType::Wall
                && self.tiles@[self.idx_of(x, self.height - 1)] == TileType::Wall
        &&& forall|y: int|
            0 <= y < self.height ==> self.tiles@[#[trigger] self.idx_of(0, y)] == TileType::Wall
                && self.tiles@[self.idx_of(self.width - 1, y)] == TileType::Wall
    }

    /// Every cell of the horizontal span between the two columns, on
    /// the given row, is Floor.
    pub open spec fn span_floor_h(self, x1: int, x2: int, y: int) -> bool {
        forall|x: int|
            crate::fov::imin(x1, x2) <= x <= crate::fov::imax(x1, x2) ==> self.tiles@[
                #[trigger] self.idx_of(x, y)] == TileType::Floor
    }

    /// Every cell of the vertical span between the two rows, in the
    /// given column, is Floor.
    pub open spec fn span_floor_v(self, y1: int, y2: int, x: int) -> bool {
        forall|y: int|
            crate::fov::imin(y1, y2) <= y <= crate::fov::imax(y1, y2) ==> self.tiles@[
                #[trigger] self.idx_of(x, y)] == TileType::Floor
    }

    /// An L-shaped corridor between two points: one of the two bend
    /// orders is carved to Floor along its whole length.
    pub open spec fn l_tunnel_floor(self, a: (int, int), b: (int, int)) -> bool {
        ||| (self.span_floor_h(a.0, b.0, a.1) && self.span_floor_v(a.1, b.1, b.0))
        ||| (self.span_floor_v(a.1, b.1, a.0) && self.span_floor_h(a.0, b.0, b.1))
    }

    /// Each accepted room after the first is joined to the previous
    /// accepted room's center by an L-shaped Floor corridor.
    pub open spec fn rooms_connected(self) -> bool {
        forall|i: int|
            1 <= i < self.rooms@.len() ==> self.l_tunnel_floor(
                (#[trigger] self.rooms@[i - 1]).spec_center(),
                self.rooms@[i].spec_center(),
            )
    }

    /// The indices of Wall cells strictly inside the border ring.
    pub open spec fn interior_wall_cells(self) -> Set<int> {
        Set::new(
            |i: int|
                0 <= i < self.width * self.height && 1 <= i % (self.width as int) < self.width - 1
                    && 1 <= i / (self.width as int) < self.height - 1 && self.tiles@[i]
                    == TileType::Wall,
        )
    }

    /// A freshly generated map: nothing revealed or visible yet, no
    /// dynamic blocking, no occupants indexed.
    pub open spec fn fresh_dynamic_state(self) -> bool {
        &&& forall|i: int| 0 <= i < self.revealed_tiles@.len() ==> !self.revealed_tiles@[i]
        &&& forall|i: int| 0 <= i < self.visible_tiles@.len() ==> !self.visible_tiles@[i]
        &&& forall|i: int| 0 <= i < self.blocked@.len() ==> !self.blocked@[i]
        &&& forall|i: int|
            0 <= i < self.tile_content@.len() ==> (#[trigger] self.tile_content@[i])@.len() == 0
    }

    pub fn xy_idx(&self, x: i32, y: i32) -> (idx: usize)
        requires
            self.inv(),
            self.in_bounds(x as int, y as int),
        ensures
            idx as int == self.idx_of(x as int, y as int),
            idx < self.tiles@.len(),
    {
        proof {
            assert(0 <= y * self.width && y * self.width + x < self.width * self.height)
                by (nonlinear_arith)
                requires
                    0 <= x < self.width,
                    0 <= y < self.height,
            ;
        }
        ((y * self.width) + x) as usize
    }

    pub fn rooms_n(&self) -> (n: usize)
        ensures
            n == self.rooms@.len(),
    {
        self.rooms.len()
    }

    pub fn dimensions(&self) -> (d: (i32, i32))
        ensures
            d == (self.width, self.height),
    {
        (self.width, self.height)
    }

    /// A cell blocks sight iff its terrain is Wall.
    pub fn is_opaque(&self, idx: usize) -> (r: bool)
        requires
            idx < self.tiles@.len(),
        ensures
            r == (self.tiles@[idx as int] == TileType::Wall),
    {
        self.tiles[idx] == TileType::Wall
    }

    /// A coordinate can be stepped onto iff it lies strictly inside
    /// the leading border and is not currently blocked.
    pub open spec fn spec_valid_exit(self, x: int, y: int) -> bool {
        1 <= x <= self.width - 1 && 1 <= y <= self.height - 1 && !self.blocked@[self.idx_of(x, y)]
    }

    pub fn is_valid_exit(&self, x: i32, y: i32) -> (r: bool)
        requires
            self.inv(),
        ensures
            r == self.spec_valid_exit(x as int, y as int),
    {
        if x < 1 || x > self.width - 1 || y < 1 || y > self.height - 1 {
            false
        } else {
            let idx = self.xy_idx(x, y);
            !self.blocked[idx]
        }
    }

    /// One pathfinding move: from cell index `a` to cell index `b`,
    /// which must be one of the four orthogonal neighbors and a valid
    /// exit.
    pub open spec fn spec_step(self, a: int, b: int) -> bool {
        let x = a % (self.width as int);
        let y = a / (self.width as int);
        ||| (b == a - 1 && self.spec_valid_exit(x - 1, y))
        ||| (b == a + 1 && self.spec_valid_exit(x + 1, y))
        ||| (b == a - self.width && self.spec_valid_exit(x, y - 1))
        ||| (b == a + self.width && self.spec_valid_exit(x, y + 1))
    }

    /// The four-neighbor exits of a cell: an index is returned exactly
    /// when it is one orthogonal valid-exit step away; there are at
    /// most four, without duplicates.
    pub fn get_available_exits(&self, idx: usize) -> (exits: Vec<usize>)
        requires
            self.inv(),
            idx < self.tiles@.len(),
        ensures
            forall|k: int|
                0 <= k < exits@.len() ==> self.spec_step(idx as int, #[trigger] exits@[k] as int)
                    && exits@[k] < self.tiles@.len(),
            forall|b: int|
                #[trigger] self.spec_step(idx as int, b) ==> exists|k: int|
                    0 <= k < exits@.len() && exits@[k] as int == b,
            exits@.len() <= 4,
            exits@.no_duplicates(),
    {
        proof {
            lemma_idx_coords(self.width as int, self.height as int, idx as int);
        }
        let w = self.width;
        let xi = (idx as i32) % w;
        let yi = (idx as i32) / w;
        proof {
            assert((yi as int - 1) * w + xi == idx - w && (yi as int + 1) * w + xi == idx + w
                && yi as int * w + (xi - 1) == idx - 1 && yi as int * w + (xi + 1) == idx + 1)
                by (nonlinear_arith)
                requires
                    idx as int == (yi as int) * w + xi as int,
            ;
        }
        let mut exits: Vec<usize> = Vec::new();
        let c1 = self.is_valid_exit(xi - 1, yi);
        if c1 {
            exits.push(idx - 1);
        }
        let ghost s1 = exits@;
        let c2 = self.is_valid_exit(xi + 1, yi);
        if c2 {
            proof {
                crate::grid::lemma_row_major_in_range(
                    self.width as int,
                    self.height as int,
                    xi as int + 1,
                    yi as int,
                );
            }
            exits.push(idx + 1);
        }
        let ghost s2 = exits@;
        let c3 = self.is_valid_exit(xi, yi - 1);
        if c3 {
            exits.push(idx - w as usize);
        }
        let ghost s3 = exits@;
        let c4 = self.is_valid_exit(xi, yi + 1);
        if c4 {
            proof {
                crate::grid::lemma_row_major_in_range(
                    self.width as int,
                    self.height as int,
                    xi as int,
                    yi as int + 1,
                );
            }
            exits.push(idx + w as usize);
        }
        proof {
            // Each valid neighbor sits at the position recorded when
            // its branch pushed it; later pushes keep prefixes.
            assert forall|b: int| #[trigger] self.spec_step(idx as int, b) implies exists|k: int|
                0 <= k < exits@.len() && exits@[k] as int == b by {
                if b == idx - 1 {
                    assert(exits@[0] as int == b);
                } else if b == idx + 1 {
                    assert(exits@[s1.len() as int] as int == b);
                } else if b == idx as int - w {
                    assert(exits@[s2.len() as int] as int == b);
                } else {
                    assert(exits@[s3.len() as int] as int == b);
                }
            }
            // Each branch fills at most one slot and the four candidate
            // indices are pairwise distinct, so there are no duplicates.
            assert forall|k1: int, k2: int| 0 <= k1 < k2 < exits@.len() implies exits@[k1]
                != exits@[k2] by {
                if k1 < s1.len() {
                    assert(exits@[k1] as int == idx - 1);
                } else if k1 < s2.len() {
                    assert(exits@[k1] as int == idx + 1);
                } else if k1 < s3.len() {
                    assert(exits@[k1] as int == idx - w);
                } else {
                    assert(exits@[k1] as int == idx + w);
                }
                if k2 < s1.len() {
                    assert(exits@[k2] as int == idx - 1);
                } else if k2 < s2.len() {
                    assert(exits@[k2] as int == idx + 1);
                } else if k2 < s3.len() {
                    assert(exits@[k2] as int == idx - w);
                } else {
                    assert(exits@[k2] as int == idx + w);
                }
            }
            assert(exits@.no_duplicates());
        }
        exits
    }

    /// Rebuilds the terrain part of the blocked array: a cell starts a
    /// step blocked iff it is a Wall.
    pub fn populate_blocked(&mut self)
        requires
            old(self).inv(),
        ensures
            final(self).inv(),
            forall|i: int|
                0 <= i < final(self).blocked@.len() ==> final(self).blocked@[i] == (final(self).tiles@[i] == TileType::Wall),
            final(self).tiles == old(self).tiles,
            final(self).rooms == old(self).rooms,
            final(self).width == old(self).width,
            final(self).height == old(self).height,
            final(self).revealed_tiles == old(self).revealed_tiles,
            final(self).visible_tiles == old(self).visible_tiles,
            final(self).tile_content == old(self).tile_content,
    {
        let n = self.tiles.len();
        let mut i: usize = 0;
        while i < n
            invariant
                self.inv(),
                n == self.tiles@.len(),
                i <= n,
                forall|k: int| 0 <= k < i ==> self.blocked@[k] == (self.tiles@[k] == TileType::Wall),
                self.tiles == old(self).tiles,
                self.rooms == old(self).rooms,
                self.width == old(self).width,
                self.height == old(self).height,
                self.revealed_tiles == old(self).revealed_tiles,
                self.visible_tiles == old(self).visible_tiles,
                self.tile_content == old(self).tile_content,
            decreases n - i,
        {
            self.blocked[i] = self.tiles[i] == TileType::Wall;
            i = i + 1;
        }
    }

    /// Empties every per-tile occupant list.
    pub fn clear_content_index(&mut self)
        requires
            old(self).inv(),
        ensures
            final(self).inv(),
            forall|i: int|
                0 <= i < final(self).tile_content@.len() ==> (#[trigger] final(self).tile_content@[i])@ == Seq::<usize>::empty(),
            final(self).tiles == old(self).tiles,
            final(self).rooms == old(self).rooms,
            final(self).width == old(self).width,
            final(self).height == old(self).height,
            final(self).revealed_tiles == old(self).revealed_tiles,
            final(self).visible_tiles == old(self).visible_tiles,
            final(self).blocked == old(self).blocked,
    {
        let n = self.tile_content.len();
        let mut i: usize = 0;
        while i < n
            invariant
                self.inv(),
                n == self.tile_content@.len(),
                i <= n,
                forall|k: int|
                    0 <= k < i ==> (#[trigger] self.tile_content@[k])@ == Seq::<usize>::empty(),
                self.tiles == old(self).tiles,
                self.rooms == old(self).rooms,
                self.width == old(self).width,
                self.height == old(self).height,
                self.revealed_tiles == old(self).revealed_tiles,
                self.visible_tiles == old(self).visible_tiles,
                self.blocked == old(self).blocked,
            decreases n - i,
        {
            self.tile_content[i].clear();
            i = i + 1;
        }
    }

    /// Carves the room's interior (everything strictly inside its
    /// border) to Floor. Cells are only ever turned to Floor, never
    /// back to Wall.
    fn add_room(&mut self, room: &Rect)
        requires
            old(self).inv(),
            0 <= room.x1 < room.x2 < old(self).width,
            0 <= room.y1 < room.y2 < old(self).height,
        ensures
            final(self).inv(),
            final(self).room_interior_floor(*room),
            forall|i: int|
                0 <= i < final(self).tiles@.len() ==> final(self).tiles@[i] == old(self).tiles@[i]
                    || final(self).tiles@[i] == TileType::Floor,
            forall|x: int, y: int|
                final(self).in_bounds(x, y) && !(room.x1 < x <= room.x2 && room.y1 < y <= room.y2)
                    ==> final(self).tiles@[#[trigger] final(self).idx_of(x, y)] == old(self).tiles@[
                    old(self).idx_of(x, y)],
            final(self).rooms == old(self).rooms,
            final(self).width == old(self).width,
            final(self).height == old(self).height,
            final(self).revealed_tiles == old(self).revealed_tiles,
            final(self).visible_tiles == old(self).visible_tiles,
            final(self).blocked == old(self).blocked,
            final(self).tile_content == old(self).tile_content,
    {
        let mut y = room.y1 + 1;
        while y <= room.y2
            invariant
                self.inv(),
                room.y1 < y <= room.y2 + 1,
                0 <= room.x1 < room.x2 < self.width,
                0 <= room.y1 < room.y2 < self.height,
                forall|i: int|
                    0 <= i < self.tiles@.len() ==> self.tiles@[i] == old(self).tiles@[i]
                        || self.tiles@[i] == TileType::Floor,
                forall|xx: int, yy: int|
                    room.x1 < xx <= room.x2 && room.y1 < yy < y ==> self.tiles@[#[trigger] self.idx_of(
                        xx,
                        yy,
                    )] == TileType::Floor,
                forall|xx: int, yy: int|
                    self.in_bounds(xx, yy) && !(room.x1 < xx <= room.x2 && room.y1 < yy
                        <= room.y2) ==> self.tiles@[#[trigger] self.idx_of(xx, yy)] == old(
                        self,
                    ).tiles@[old(self).idx_of(xx, yy)],
                self.rooms == old(self).rooms,
                self.width == old(self).width,
                self.height == old(self).height,
                self.revealed_tiles == old(self).revealed_tiles,
                self.visible_tiles == old(self).visible_tiles,
                self.blocked == old(self).blocked,
                self.tile_content == old(self).tile_content,
            decreases room.y2 + 1 - y,
        {
            let mut x = room.x1 + 1;
            while x <= room.x2
                invariant
                    self.inv(),
                    room.y1 < y <= room.y2,
                    room.x1 < x <= room.x2 + 1,
                    0 <= room.x1 < room.x2 < self.width,
                    0 <= room.y1 < room.y2 < self.height,
                    forall|i: int|
                        0 <= i < self.tiles@.len() ==> self.tiles@[i] == old(self).tiles@[i]
                            || self.tiles@[i] == TileType::Floor,
                    forall|xx: int, yy: int|
                        room.x1 < xx <= room.x2 && room.y1 < yy < y ==> self.tiles@[#[trigger] self.idx_of(
                            xx,
                            yy,
                        )] == TileType::Floor,
                    forall|xx: int|
                        room.x1 < xx < x ==> self.tiles@[#[trigger] self.idx_of(xx, y as int)]
                            == TileType::Floor,
                    forall|xx: int, yy: int|
                        self.in_bounds(xx, yy) && !(room.x1 < xx <= room.x2 && room.y1 < yy
                            <= room.y2) ==> self.tiles@[#[trigger] self.idx_of(xx, yy)] == old(
                            self,
                        ).tiles@[old(self).idx_of(xx, yy)],
                    self.rooms == old(self).rooms,
                    self.width == old(self).width,
                    self.height == old(self).height,
                    self.revealed_tiles == old(self).revealed_tiles,
                    self.visible_tiles == old(self).visible_tiles,
                    self.blocked == old(self).blocked,
                    self.tile_content == old(self).tile_content,
                decreases room.x2 + 1 - x,
            {
                let ghost prev = *self;
                let idx = self.xy_idx(x, y);
                self.tiles[idx] = TileType::Floor;
                proof {
                    assert forall|xx: int, yy: int|
                        room.x1 < xx <= room.x2 && room.y1 < yy < y implies self.tiles@[
                    #[trigger] self.idx_of(xx, yy)] == TileType::Floor by {
                        crate::grid::lemma_row_major_in_range(
                            self.width as int,
                            self.height as int,
                            xx,
                            yy,
                        );
                        assert(prev.tiles@[prev.idx_of(xx, yy)] == TileType::Floor);
                    }
                    assert forall|xx: int| room.x1 < xx < x + 1 implies self.tiles@[
                    #[trigger] self.idx_of(xx, y as int)] == TileType::Floor by {
                        crate::grid::lemma_row_major_in_range(
                            self.width as int,
                            self.height as int,
                            xx,
                            y as int,
                        );
                        if xx < x {
                            assert(prev.tiles@[prev.idx_of(xx, y as int)] == TileType::Floor);
                        }
                    }
                    assert forall|xx: int, yy: int|
                        self.in_bounds(xx, yy) && !(room.x1 < xx <= room.x2 && room.y1 < yy
                            <= room.y2) implies self.tiles@[#[trigger] self.idx_of(xx, yy)] == old(
                        self,
                    ).tiles@[old(self).idx_of(xx, yy)] by {
                        crate::grid::lemma_row_major_in_range(
                            self.width as int,
                            self.height as int,
                            xx,
                            yy,
                        );
                        crate::grid::lemma_row_major_injective(
                            self.width as int,
                            xx,
                            yy,
                            x as int,
                            y as int,
                        );
                        assert(prev.tiles@[prev.idx_of(xx, yy)] == old(self).tiles@[old(
                            self,
                        ).idx_of(xx, yy)]);
                    }
                }
                x = x + 1;
            }
            y = y + 1;
        }
    }

    /// Carves a one-tile-high horizontal corridor covering every
    /// column between the two endpoints, inclusive.
    fn add_horizontal_tunnel(&mut self, x1: i32, x2: i32, y: i32)
        requires
            old(self).inv(),
            0 <= x1 < old(self).width,
            0 <= x2 < old(self).width,
            0 <= y < old(self).height,
        ensures
            final(self).inv(),
            forall|i: int|
                0 <= i < final(self).tiles@.len() ==> final(self).tiles@[i] == old(self).tiles@[i]
                    || final(self).tiles@[i] == TileType::Floor,
            forall|x: int|
                (if x1 <= x2 { x1 <= x <= x2 } else { x2 <= x <= x1 }) ==> final(self).tiles@[
                    #[trigger] final(self).idx_of(x, y as int)] == TileType::Floor,
            final(self).span_floor_h(x1 as int, x2 as int, y as int),
            forall|xx: int, yy: int|
                final(self).in_bounds(xx, yy) && !(crate::fov::imin(x1 as int, x2 as int) <= xx
                    <= crate::fov::imax(x1 as int, x2 as int) && yy == y) ==> final(self).tiles@[
                    #[trigger] final(self).idx_of(xx, yy)] == old(self).tiles@[old(self).idx_of(
                    xx,
                    yy,
                )],
            final(self).rooms == old(self).rooms,
            final(self).width == old(self).width,
            final(self).height == old(self).height,
            final(self).revealed_tiles == old(self).revealed_tiles,
            final(self).visible_tiles == old(self).visible_tiles,
            final(self).blocked == old(self).blocked,
            final(self).tile_content == old(self).tile_content,
    {
        let lo = if x1 < x2 { x1 } else { x2 };
        let hi = if x1 < x2 { x2 } else { x1 };
        let mut x = lo;
        while x <= hi
            invariant
                self.inv(),
                0 <= lo <= x <= hi + 1,
                hi < self.width,
                0 <= y < self.height,
                forall|i: int|
                    0 <= i < self.tiles@.len() ==> self.tiles@[i] == old(self).tiles@[i]
                        || self.tiles@[i] == TileType::Floor,
                forall|xx: int|
                    lo <= xx < x ==> self.tiles@[#[trigger] self.idx_of(xx, y as int)]
                        == TileType::Floor,
                forall|xx: int, yy: int|
                    self.in_bounds(xx, yy) && !(lo <= xx <= hi && yy == y) ==> self.tiles@[
                        #[trigger] self.idx_of(xx, yy)] == old(self).tiles@[old(self).idx_of(
                        xx,
                        yy,
                    )],
                self.rooms == old(self).rooms,
                self.width == old(self).width,
                self.height == old(self).height,
                self.revealed_tiles == old(self).revealed_tiles,
                self.visible_tiles == old(self).visible_tiles,
                self.blocked == old(self).blocked,
                self.tile_content == old(self).tile_content,
            decreases hi + 1 - x,
        {
            let ghost prev = *self;
            let idx = self.xy_idx(x, y);
            self.tiles[idx] = TileType::Floor;
            proof {
                assert forall|xx: int| lo <= xx < x + 1 implies self.tiles@[#[trigger] self.idx_of(
                    xx,
                    y as int,
                )] == TileType::Floor by {
                    crate::grid::lemma_row_major_in_range(
                        self.width as int,
                        self.height as int,
                        xx,
                        y as int,
                    );
                    if xx < x {
                        assert(prev.tiles@[prev.idx_of(xx, y as int)] == TileType::Floor);
                    }
                }
                assert forall|xx: int, yy: int|
                    self.in_bounds(xx, yy) && !(lo <= xx <= hi && yy == y) implies self.tiles@[
                    #[trigger] self.idx_of(xx, yy)] == old(self).tiles@[old(self).idx_of(
                    xx,
                    yy,
                )] by {
                    crate::grid::lemma_row_major_in_range(
                        self.width as int,
                        self.height as int,
                        xx,
                        yy,
                    );
                    crate::grid::lemma_row_major_injective(
                        self.width as int,
                        xx,
                        yy,
                        x as int,
                        y as int,
                    );
                    assert(prev.tiles@[prev.idx_of(xx, yy)] == old(self).tiles@[old(self).idx_of(
                        xx,
                        yy,
                    )]);
                }
            }
            x = x + 1;
        }
    }

    /// Carves a one-tile-wide vertical corridor covering every row
    /// between the two endpoints, inclusive.
    fn add_vertical_tunnel(&mut self, y1: i32, y2: i32, x: i32)
        requires
            old(self).inv(),
            0 <= y1 < old(self).height,
            0 <= y2 < old(self).height,
            0 <= x < old(self).width,
        ensures
            final(self).inv(),
            forall|i: int|
                0 <= i < final(self).tiles@.len() ==> final(self).tiles@[i] == old(self).tiles@[i]
                    || final(self).tiles@[i] == TileType::Floor,
            forall|y: int|
                (if y1 <= y2 { y1 <= y <= y2 } else { y2 <= y <= y1 }) ==> final(self).tiles@[
                    #[trigger] final(self).idx_of(x as int, y)] == TileType::Floor,
            final(self).span_floor_v(y1 as int, y2 as int, x as int),
            forall|xx: int, yy: int|
                final(self).in_bounds(xx, yy) && !(crate::fov::imin(y1 as int, y2 as int) <= yy
                    <= crate::fov::imax(y1 as int, y2 as int) && xx == x) ==> final(self).tiles@[
                    #[trigger] final(self).idx_of(xx, yy)] == old(self).tiles@[old(self).idx_of(
                    xx,
                    yy,
                )],
            final(self).rooms == old(self).rooms,
            final(self).width == old(self).width,
            final(self).height == old(self).height,
            final(self).revealed_tiles == old(self).revealed_tiles,
            final(self).visible_tiles == old(self).visible_tiles,
            final(self).blocked == old(self).blocked,
            final(self).tile_content == old(self).tile_content,
    {
        let lo = if y1 < y2 { y1 } else { y2 };
        let hi = if y1 < y2 { y2 } else { y1 };
        let mut y = lo;
        while y <= hi
            invariant
                self.inv(),
                0 <= lo <= y <= hi + 1,
                hi < self.height,
                0 <= x < self.width,
                forall|i: int|
                    0 <= i < self.tiles@.len() ==> self.tiles@[i] == old(self).tiles@[i]
                        || self.tiles@[i] == TileType::Floor,
                forall|yy: int|
                    lo <= yy < y ==> self.tiles@[#[trigger] self.idx_of(x as int, yy)]
                        == TileType::Floor,
                forall|xx: int, yy: int|
                    self.in_bounds(xx, yy) && !(lo <= yy <= hi && xx == x) ==> self.tiles@[
                        #[trigger] self.idx_of(xx, yy)] == old(self).tiles@[old(self).idx_of(
                        xx,
                        yy,
                    )],
                self.rooms == old(self).rooms,
                self.width == old(self).width,
                self.height == old(self).height,
                self.revealed_tiles == old(self).revealed_tiles,
                self.visible_tiles == old(self).visible_tiles,
                self.blocked == old(self).blocked,
                self.tile_content == old(self).tile_content,
            decreases hi + 1 - y,
        {
            let ghost prev = *self;
            let idx = self.xy_idx(x, y);
            self.tiles[idx] = TileType::Floor;
            proof {
                assert forall|yy: int| lo <= yy < y + 1 implies self.tiles@[#[trigger] self.idx_of(
                    x as int,
                    yy,
                )] == TileType::Floor by {
                    crate::grid::lemma_row_major_in_range(
                        self.width as int,
                        self.height as int,
                        x as int,
                        yy,
                    );
                    if yy < y {
                        assert(prev.tiles@[prev.idx_of(x as int, yy)] == TileType::Floor);
                    }
                }
                assert forall|xx: int, yy: int|
                    self.in_bounds(xx, yy) && !(lo <= yy <= hi && xx == x) implies self.tiles@[
                    #[trigger] self.idx_of(xx, yy)] == old(self).tiles@[old(self).idx_of(
                    xx,
                    yy,
                )] by {
                    crate::grid::lemma_row_major_in_range(
                        self.width as int,
                        self.height as int,
                        xx,
                        yy,
                    );
                    crate::grid::lemma_row_major_injective(
                        self.width as int,
                        xx,
                        yy,
                        x as int,
                        y as int,
                    );
                    assert(prev.tiles@[prev.idx_of(xx, yy)] == old(self).tiles@[old(self).idx_of(
                        xx,
                        yy,
                    )]);
                }
            }
            y = y + 1;
        }
    }

    /// Marks the whole grid as revealed; the one sanctioned jump of
    /// the otherwise monotone revealed set.
    pub fn reveal_all(&mut self)
        requires
            old(self).inv(),
        ensures
            final(self).inv(),
            forall|i: int| 0 <= i < final(self).revealed_tiles@.len() ==> final(self).revealed_tiles@[i],
            final(self).tiles == old(self).tiles,
            final(self).rooms == old(self).rooms,
            final(self).width == old(self).width,
            final(self).height == old(self).height,
            final(self).visible_tiles == old(self).visible_tiles,
            final(self).blocked == old(self).blocked,
            final(self).tile_content == old(self).tile_content,
    {
        let n = self.revealed_tiles.len();
        let mut i: usize = 0;
        while i < n
            invariant
                self.inv(),
                n == self.revealed_tiles@.len(),
                i <= n,
                forall|k: int| 0 <= k < i ==> self.revealed_tiles@[k],
                self.tiles == old(self).tiles,
                self.rooms == old(self).rooms,
                self.width == old(self).width,
                self.height == old(self).height,
                self.visible_tiles == old(self).visible_tiles,
                self.blocked == old(self).blocked,
                self.tile_content == old(self).tile_content,
            decreases n - i,
        {
            self.revealed_tiles[i] = true;
            i = i + 1;
        }
    }
}

impl GameMap {
    /// Generates a dungeon level from `seed`: up to `MAX_ROOMS`
    /// randomly placed rooms, each rejected if its rectangle
    /// intersects an already accepted room, each accepted room carved
    /// to Floor and connected to the previous one by an L-shaped
    /// corridor whose bend order a coin flip picks. The first
    /// candidate is never rejected, so at least one room exists.
    #[verifier::rlimit(100)]
    #[verifier::spinoff_prover]
    pub fn new_map(seed: u64) -> (m: GameMap)
        ensures
            m.inv(),
            m.width == MAP_WIDTH,
            m.height == MAP_HEIGHT,
            m.rooms@.len() >= 1,
            m.rooms@.len() <= MAX_ROOMS,
            m.rooms_disjoint(),
            m.rooms_carved(),
            m.rooms_in_border(),
            m.rooms_sized(),
            m.rooms_connected(),
            m.border_walls(),
            m.fresh_dynamic_state(),
    {
        let mut rng = rng_seeded(seed);
        let mut map = GameMap {
            tiles: vec![TileType::Wall; (80 * 50) as usize],
            rooms: Vec::new(),
            width: MAP_WIDTH,
            height: MAP_HEIGHT,
            revealed_tiles: vec![false; (80 * 50) as usize],
            visible_tiles: vec![false; (80 * 50) as usize],
            blocked: vec![false; (80 * 50) as usize],
            tile_content: vec![Vec::new(); (80 * 50) as usize],
        };
        let mut attempt: i32 = 0;
        while attempt < MAX_ROOMS
            invariant
                map.inv(),
                map.width == MAP_WIDTH,
                map.height == MAP_HEIGHT,
                0 <= attempt <= MAX_ROOMS,
                attempt >= 1 ==> map.rooms@.len() >= 1,
                map.rooms@.len() <= attempt,
                map.rooms_disjoint(),
                map.rooms_carved(),
                map.rooms_in_border(),
                map.rooms_sized(),
                map.rooms_connected(),
                map.border_walls(),
                map.fresh_dynamic_state(),
            decreases MAX_ROOMS - attempt,
        {
            let w = rng_range(&mut rng, MIN_ROOM_SIZE, MAX_ROOM_SIZE + 1);
            let h = rng_range(&mut rng, MIN_ROOM_SIZE, MAX_ROOM_SIZE + 1);
            let x = rng_range(&mut rng, 0, MAP_WIDTH - w - 1);
            let y = rng_range(&mut rng, 0, MAP_HEIGHT - h - 1);
            let new_room = Rect::new(x, y, w, h);
            let mut ok = true;
            let mut i: usize = 0;
            while i < map.rooms.len()
                invariant
                    i <= map.rooms@.len(),
                    map.rooms@.len() == 0 ==> ok,
                    ok ==> forall|k: int|
                        0 <= k < i ==> !new_room.spec_intersect(#[trigger] map.rooms@[k]),
                decreases map.rooms@.len() - i,
            {
                if new_room.intersect(&map.rooms[i]) {
                    ok = false;
                }
                i = i + 1;
            }
            if ok {
                let ghost before = map;
                map.add_room(&new_room);
                let ghost carved = map;
                if map.rooms.len() > 0 {
                    let (new_x, new_y) = new_room.center();
                    let prev = map.rooms[map.rooms.len() - 1];
                    let (prev_x, prev_y) = prev.center();
                    proof {
                        // Centers of sized rooms sit at least three
                        // cells inside the rectangle, so corridors
                        // never reach the border ring.
                        assert(prev.x1 + 3 <= prev_x as int <= prev.x2 - 3);
                        assert(prev.y1 + 3 <= prev_y as int <= prev.y2 - 3);
                        assert(new_room.x1 + 3 <= new_x as int <= new_room.x2 - 3);
                        assert(new_room.y1 + 3 <= new_y as int <= new_room.y2 - 3);
                    }
                    if rng_range(&mut rng, 0, 2) == 1 {
                        map.add_horizontal_tunnel(prev_x, new_x, prev_y);
                        let ghost mid = map;
                        map.add_vertical_tunnel(prev_y, new_y, new_x);
                        proof {
                            assert forall|xc: int|
                                crate::fov::imin(prev_x as int, new_x as int) <= xc
                                    <= crate::fov::imax(prev_x as int, new_x as int) implies
                                map.tiles@[#[trigger] map.idx_of(xc, prev_y as int)]
                                    == TileType::Floor by {
                                crate::grid::lemma_row_major_in_range(
                                    map.width as int,
                                    map.height as int,
                                    xc,
                                    prev_y as int,
                                );
                                assert(mid.tiles@[mid.idx_of(xc, prev_y as int)]
                                    == TileType::Floor);
                            }
                            assert(map.span_floor_h(prev_x as int, new_x as int, prev_y as int));
                            assert(map.l_tunnel_floor(
                                map.rooms@[map.rooms@.len() - 1].spec_center(),
                                new_room.spec_center(),
                            ));
                            assert forall|bx: int, by: int|
                                map.in_bounds(bx, by) && (bx == 0 || bx == map.width - 1 || by == 0
                                    || by == map.height - 1) implies map.tiles@[
                            #[trigger] map.idx_of(bx, by)] == carved.tiles@[carved.idx_of(
                                bx,
                                by,
                            )] by {
                                assert(mid.tiles@[mid.idx_of(bx, by)] == carved.tiles@[
                                carved.idx_of(bx, by)]);
                            }
                        }
                    } else {
                        map.add_vertical_tunnel(prev_y, new_y, prev_x);
                        let ghost mid = map;
                        map.add_horizontal_tunnel(prev_x, new_x, new_y);
                        proof {
                            assert forall|yc: int|
                                crate::fov::imin(prev_y as int, new_y as int) <= yc
                                    <= crate::fov::imax(prev_y as int, new_y as int) implies
                                map.tiles@[#[trigger] map.idx_of(prev_x as int, yc)]
                                    == TileType::Floor by {
                                crate::grid::lemma_row_major_in_range(
                                    map.width as int,
                                    map.height as int,
                                    prev_x as int,
                                    yc,
                                );
                                assert(mid.tiles@[mid.idx_of(prev_x as int, yc)]
                                    == TileType::Floor);
                            }
                            assert(map.span_floor_v(prev_y as int, new_y as int, prev_x as int));
                            assert(map.l_tunnel_floor(
                                map.rooms@[map.rooms@.len() - 1].spec_center(),
                                new_room.spec_center(),
                            ));
                            assert forall|bx: int, by: int|
                                map.in_bounds(bx, by) && (bx == 0 || bx == map.width - 1 || by == 0
                                    || by == map.height - 1) implies map.tiles@[
                            #[trigger] map.idx_of(bx, by)] == carved.tiles@[carved.idx_of(
                                bx,
                                by,
                            )] by {
                                assert(mid.tiles@[mid.idx_of(bx, by)] == carved.tiles@[
                                carved.idx_of(bx, by)]);
                            }
                        }
                    }
                }
                let ghost prepush = map;
                proof {
                    // Nothing carved this round touches the border
                    // ring, which therefore stays all Wall.
                    assert forall|bx: int, by: int|
                        prepush.in_bounds(bx, by) && (bx == 0 || bx == prepush.width - 1 || by == 0
                            || by == prepush.height - 1) implies prepush.tiles@[
                    #[trigger] prepush.idx_of(bx, by)] == before.tiles@[before.idx_of(bx, by)] by {
                        assert(carved.tiles@[carved.idx_of(bx, by)] == before.tiles@[before.idx_of(
                            bx,
                            by,
                        )]);
                        assert(map.tiles@[map.idx_of(bx, by)] == carved.tiles@[carved.idx_of(
                            bx,
                            by,
                        )]);
                    }
                    // Carving this round only ever turned cells to
                    // Floor, in every intermediate state.
                    assert forall|i: int| 0 <= i < prepush.tiles@.len() implies prepush.tiles@[i]
                        == before.tiles@[i] || #[trigger] prepush.tiles@[i] == TileType::Floor by {
                        assert(carved.tiles@[i] == before.tiles@[i] || carved.tiles@[i]
                            == TileType::Floor);
                    }
                }
                map.rooms.push(new_room);
                proof {
                    // Carving and corridors only ever turn cells to
                    // Floor, so every accepted interior stays Floor.
                    assert forall|k: int| 0 <= k < map.rooms@.len() implies map.room_interior_floor(
                        #[trigger] map.rooms@[k],
                    ) by {
                        let r = map.rooms@[k];
                        assert forall|xx: int, yy: int| r.x1 < xx <= r.x2 && r.y1 < yy <= r.y2
                            implies map.in_bounds(xx, yy) && map.tiles@[#[trigger] map.idx_of(
                            xx,
                            yy,
                        )] == TileType::Floor by {
                            crate::grid::lemma_row_major_in_range(
                                map.width as int,
                                map.height as int,
                                xx,
                                yy,
                            );
                            if k < map.rooms@.len() - 1 {
                                assert(before.room_interior_floor(before.rooms@[k]));
                                assert(before.tiles@[before.idx_of(xx, yy)] == TileType::Floor);
                            } else {
                                assert(carved.tiles@[carved.idx_of(xx, yy)] == TileType::Floor);
                            }
                        }
                    }
                    assert forall|a: int, b: int| 0 <= a < b < map.rooms@.len() implies !(
                    #[trigger] map.rooms@[a].spec_intersect(map.rooms@[b])) by {
                        if b == map.rooms@.len() - 1 {
                            assert(!new_room.spec_intersect(before.rooms@[a]));
                            crate::rect::lemma_intersect_symmetric(map.rooms@[a], new_room);
                        } else {
                            assert(!before.rooms@[a].spec_intersect(before.rooms@[b]));
                        }
                    }
                    assert forall|x: int| 0 <= x < map.width implies map.tiles@[
                    #[trigger] map.idx_of(x, 0)] == TileType::Wall && map.tiles@[map.idx_of(
                        x,
                        map.height - 1,
                    )] == TileType::Wall by {
                        assert(prepush.tiles@[prepush.idx_of(x, 0)] == before.tiles@[before.idx_of(
                            x,
                            0,
                        )]);
                        assert(prepush.tiles@[prepush.idx_of(x, prepush.height - 1)]
                            == before.tiles@[before.idx_of(x, before.height - 1)]);
                        assert(before.tiles@[before.idx_of(x, 0)] == TileType::Wall);
                        assert(before.tiles@[before.idx_of(x, before.height - 1)]
                            == TileType::Wall);
                    }
                    assert forall|y: int| 0 <= y < map.height implies map.tiles@[
                    #[trigger] map.idx_of(0, y)] == TileType::Wall && map.tiles@[map.idx_of(
                        map.width - 1,
                        y,
                    )] == TileType::Wall by {
                        assert(prepush.tiles@[prepush.idx_of(0, y)] == before.tiles@[before.idx_of(
                            0,
                            y,
                        )]);
                        assert(prepush.tiles@[prepush.idx_of(prepush.width - 1, y)]
                            == before.tiles@[before.idx_of(before.width - 1, y)]);
                        assert(before.tiles@[before.idx_of(0, y)] == TileType::Wall);
                        assert(before.tiles@[before.idx_of(before.width - 1, y)]
                            == TileType::Wall);
                    }
                    assert forall|i2: int| 1 <= i2 < map.rooms@.len() implies map.l_tunnel_floor(
                        (#[trigger] map.rooms@[i2 - 1]).spec_center(),
                        map.rooms@[i2].spec_center(),
                    ) by {
                        if i2 < map.rooms@.len() - 1 {
                            let ra = before.rooms@[i2 - 1];
                            let rb = before.rooms@[i2];
                            assert(before.l_tunnel_floor(ra.spec_center(), rb.spec_center()));
                            crate::rect::lemma_center_in_rect(ra);
                            crate::rect::lemma_center_in_rect(rb);
                            lemma_corridor_persists(
                                before,
                                map,
                                ra.spec_center(),
                                rb.spec_center(),
                            );
                        } else {
                            let ra = before.rooms@[i2 - 1];
                            assert(prepush.l_tunnel_floor(
                                ra.spec_center(),
                                new_room.spec_center(),
                            ));
                            crate::rect::lemma_center_in_rect(ra);
                            crate::rect::lemma_center_in_rect(new_room);
                            lemma_corridor_persists(
                                prepush,
                                map,
                                ra.spec_center(),
                                new_room.spec_center(),
                            );
                        }
                    }
                }
            }
            attempt = attempt + 1;
        }
        map
    }

    /// A fixed, deterministic test pattern: an open floor bordered by
    /// walls, with scattered single-tile wall obstacles that always
    /// leave the exact center cell open.
    pub fn test_map() -> (m: GameMap)
        ensures
            m.inv(),
            m.width == MAP_WIDTH,
            m.height == MAP_HEIGHT,
            m.rooms@.len() == 1,
            m.rooms@[0] == (Rect { x1: 10, y1: 10, x2: 20, y2: 20 }),
            forall|x: int|
                0 <= x < m.width ==> m.tiles@[#[trigger] m.idx_of(x, 0)] == TileType::Wall
                    && m.tiles@[m.idx_of(x, m.height - 1)] == TileType::Wall,
            forall|y: int|
                0 <= y < m.height ==> m.tiles@[#[trigger] m.idx_of(0, y)] == TileType::Wall
                    && m.tiles@[m.idx_of(m.width - 1, y)] == TileType::Wall,
            m.tiles@[m.idx_of(40, 25)] == TileType::Floor,
            m.interior_wall_cells().finite(),
            m.interior_wall_cells().len() <= 400,
            m.fresh_dynamic_state(),
    {
        let mut map = GameMap {
            tiles: vec![TileType::Floor; (80 * 50) as usize],
            rooms: Vec::new(),
            width: MAP_WIDTH,
            height: MAP_HEIGHT,
            revealed_tiles: vec![false; (80 * 50) as usize],
            visible_tiles: vec![false; (80 * 50) as usize],
            blocked: vec![false; (80 * 50) as usize],
            tile_content: vec![Vec::new(); (80 * 50) as usize],
        };
        map.rooms.push(Rect::new(10, 10, 10, 10));
        let mut x: i32 = 0;
        while x < 80
            invariant
                map.inv(),
                map.width == MAP_WIDTH,
                map.height == MAP_HEIGHT,
                map.rooms@.len() == 1,
                map.rooms@[0] == (Rect { x1: 10, y1: 10, x2: 20, y2: 20 }),
                0 <= x <= 80,
                forall|k: int|
                    0 <= k < x ==> map.tiles@[#[trigger] map.idx_of(k, 0)] == TileType::Wall
                        && map.tiles@[map.idx_of(k, 49)] == TileType::Wall,
                map.tiles@[map.idx_of(40, 25)] == TileType::Floor,
                map.interior_wall_cells() =~= Set::<int>::empty(),
                map.fresh_dynamic_state(),
            decreases 80 - x,
        {
            let ghost prev = map;
            let idx = map.xy_idx(x, 0);
            map.tiles[idx] = TileType::Wall;
            let idx2 = map.xy_idx(x, 49);
            map.tiles[idx2] = TileType::Wall;
            proof {
                assert forall|k: int| 0 <= k < x + 1 implies map.tiles@[#[trigger] map.idx_of(k, 0)]
                    == TileType::Wall && map.tiles@[map.idx_of(k, 49)] == TileType::Wall by {
                    crate::grid::lemma_row_major_in_range(map.width as int, map.height as int, k, 0);
                    crate::grid::lemma_row_major_in_range(
                        map.width as int,
                        map.height as int,
                        k,
                        49,
                    );
                    if k < x {
                        assert(prev.tiles@[prev.idx_of(k, 0)] == TileType::Wall);
                        assert(prev.tiles@[prev.idx_of(k, 49)] == TileType::Wall);
                    }
                }
                assert(map.tiles@[map.idx_of(40, 25)] == TileType::Floor) by {
                    assert(prev.tiles@[prev.idx_of(40, 25)] == TileType::Floor);
                    crate::grid::lemma_row_major_in_range(
                        map.width as int,
                        map.height as int,
                        40,
                        25,
                    );
                }
                assert forall|i: int| !(#[trigger] map.interior_wall_cells().contains(i)) by {
                    if 0 <= i < map.width * map.height {
                        if i == idx || i == idx2 {
                            vstd::arithmetic::div_mod::lemma_fundamental_div_mod_converse_div(
                                idx as int,
                                map.width as int,
                                0,
                                x as int,
                            );
                            vstd::arithmetic::div_mod::lemma_fundamental_div_mod_converse_div(
                                idx2 as int,
                                map.width as int,
                                49,
                                x as int,
                            );
                        } else {
                            assert(!prev.interior_wall_cells().contains(i));
                            assert(map.tiles@[i] == prev.tiles@[i]);
                        }
                    }
                }
                assert(map.interior_wall_cells() =~= Set::<int>::empty());
            }
            x = x + 1;
        }
        let mut y: i32 = 0;
        while y < 50
            invariant
                map.inv(),
                map.width == MAP_WIDTH,
                map.height == MAP_HEIGHT,
                map.rooms@.len() == 1,
                map.rooms@[0] == (Rect { x1: 10, y1: 10, x2: 20, y2: 20 }),
                0 <= y <= 50,
                forall|k: int|
                    0 <= k < 80 ==> map.tiles@[#[trigger] map.idx_of(k, 0)] == TileType::Wall
                        && map.tiles@[map.idx_of(k, 49)] == TileType::Wall,
                forall|k: int|
                    0 <= k < y ==> map.tiles@[#[trigger] map.idx_of(0, k)] == TileType::Wall
                        && map.tiles@[map.idx_of(79, k)] == TileType::Wall,
                map.tiles@[map.idx_of(40, 25)] == TileType::Floor,
                map.interior_wall_cells() =~= Set::<int>::empty(),
                map.fresh_dynamic_state(),
            decreases 50 - y,
        {
            let ghost prev = map;
            let idx = map.xy_idx(0, y);
            map.tiles[idx] = TileType::Wall;
            let idx2 = map.xy_idx(79, y);
            map.tiles[idx2] = TileType::Wall;
            proof {
                assert forall|k: int| 0 <= k < 80 implies map.tiles@[#[trigger] map.idx_of(k, 0)]
                    == TileType::Wall && map.tiles@[map.idx_of(k, 49)] == TileType::Wall by {
                    crate::grid::lemma_row_major_in_range(map.width as int, map.height as int, k, 0);
                    crate::grid::lemma_row_major_in_range(
                        map.width as int,
                        map.height as int,
                        k,
                        49,
                    );
                    assert(prev.tiles@[prev.idx_of(k, 0)] == TileType::Wall);
                    assert(prev.tiles@[prev.idx_of(k, 49)] == TileType::Wall);
                }
                assert forall|k: int| 0 <= k < y + 1 implies map.tiles@[#[trigger] map.idx_of(0, k)]
                    == TileType::Wall && map.tiles@[map.idx_of(79, k)] == TileType::Wall by {
                    crate::grid::lemma_row_major_in_range(map.width as int, map.height as int, 0, k);
                    crate::grid::lemma_row_major_in_range(
                        map.width as int,
                        map.height as int,
                        79,
                        k,
                    );
                    if k < y {
                        assert(prev.tiles@[prev.idx_of(0, k)] == TileType::Wall);
                        assert(prev.tiles@[prev.idx_of(79, k)] == TileType::Wall);
                    }
                }
                assert(map.tiles@[map.idx_of(40, 25)] == TileType::Floor) by {
                    assert(prev.tiles@[prev.idx_of(40, 25)] == TileType::Floor);
                    crate::grid::lemma_row_major_in_range(
                        map.width as int,
                        map.height as int,
                        40,
                        25,
                    );
                }
                assert forall|i: int| !(#[trigger] map.interior_wall_cells().contains(i)) by {
                    if 0 <= i < map.width * map.height {
                        if i == idx || i == idx2 {
                            vstd::arithmetic::div_mod::lemma_fundamental_div_mod_converse_mod(
                                idx as int,
                                map.width as int,
                                y as int,
                                0,
                            );
                            vstd::arithmetic::div_mod::lemma_fundamental_div_mod_converse_mod(
                                idx2 as int,
                                map.width as int,
                                y as int,
                                79,
                            );
                        } else {
                            assert(!prev.interior_wall_cells().contains(i));
                            assert(map.tiles@[i] == prev.tiles@[i]);
                        }
                    }
                }
                assert(map.interior_wall_cells() =~= Set::<int>::empty());
            }
            y = y + 1;
        }
        let mut rng = rng_seeded(7);
        let center = map.xy_idx(40, 25);
        let ghost mut walled: Set<int> = Set::empty();
        let mut i: i32 = 0;
        while i < 400
            invariant
                map.interior_wall_cells().subset_of(walled),
                walled.finite(),
                walled.len() <= i,
                map.inv(),
                map.width == MAP_WIDTH,
                map.height == MAP_HEIGHT,
                map.rooms@.len() == 1,
                map.rooms@[0] == (Rect { x1: 10, y1: 10, x2: 20, y2: 20 }),
                0 <= i <= 400,
                center == map.idx_of(40, 25),
                forall|k: int|
                    0 <= k < 80 ==> map.tiles@[#[trigger] map.idx_of(k, 0)] == TileType::Wall
                        && map.tiles@[map.idx_of(k, 49)] == TileType::Wall,
                forall|k: int|
                    0 <= k < 50 ==> map.tiles@[#[trigger] map.idx_of(0, k)] == TileType::Wall
                        && map.tiles@[map.idx_of(79, k)] == TileType::Wall,
                map.tiles@[center as int] == TileType::Floor,
                map.fresh_dynamic_state(),
            decreases 400 - i,
        {
            let ghost prev = map;
            let sx = rng_range(&mut rng, 1, 80);
            let sy = rng_range(&mut rng, 1, 50);
            let idx = map.xy_idx(sx, sy);
            if idx != center {
                map.tiles[idx] = TileType::Wall;
                proof {
                    broadcast use vstd::set::axiom_set_insert_len;

                    walled = walled.insert(idx as int);
                    assert forall|j: int| #[trigger] map.interior_wall_cells().contains(j) implies
                        walled.contains(j) by {
                        if j != idx {
                            assert(prev.interior_wall_cells().contains(j));
                        }
                    }
                }
            }
            proof {
                assert forall|k: int| 0 <= k < 80 implies map.tiles@[#[trigger] map.idx_of(k, 0)]
                    == TileType::Wall && map.tiles@[map.idx_of(k, 49)] == TileType::Wall by {
                    crate::grid::lemma_row_major_in_range(map.width as int, map.height as int, k, 0);
                    crate::grid::lemma_row_major_in_range(
                        map.width as int,
                        map.height as int,
                        k,
                        49,
                    );
                    assert(prev.tiles@[prev.idx_of(k, 0)] == TileType::Wall);
                    assert(prev.tiles@[prev.idx_of(k, 49)] == TileType::Wall);
                }
                assert forall|k: int| 0 <= k < 50 implies map.tiles@[#[trigger] map.idx_of(0, k)]
                    == TileType::Wall && map.tiles@[map.idx_of(79, k)] == TileType::Wall by {
                    crate::grid::lemma_row_major_in_range(map.width as int, map.height as int, 0, k);
                    crate::grid::lemma_row_major_in_range(
                        map.width as int,
                        map.height as int,
                        79,
                        k,
                    );
                    assert(prev.tiles@[prev.idx_of(0, k)] == TileType::Wall);
                    assert(prev.tiles@[prev.idx_of(79, k)] == TileType::Wall);
                }
            }
            i = i + 1;
        }
        proof {
            vstd::set_lib::lemma_len_subset(map.interior_wall_cells(), walled);
        }
        map
    }
}

/// An L-corridor of Floor persists under any change that only ever
/// turns cells to Floor, on a grid of the same dimensions.
proof fn lemma_corridor_persists(m1: GameMap, m2: GameMap, a: (int, int), b: (int, int))
    requires
        m1.inv(),
        m2.inv(),
        m1.width == m2.width,
        m1.height == m2.height,
        forall|i: int|
            0 <= i < m2.tiles@.len() ==> m2.tiles@[i] == m1.tiles@[i] || m2.tiles@[i]
                == TileType::Floor,
        m1.in_bounds(a.0, a.1),
        m1.in_bounds(b.0, b.1),
        m1.l_tunnel_floor(a, b),
    ensures
        m2.l_tunnel_floor(a, b),
{
    if m1.span_floor_h(a.0, b.0, a.1) && m1.span_floor_v(a.1, b.1, b.0) {
        assert forall|x: int|
            crate::fov::imin(a.0, b.0) <= x <= crate::fov::imax(a.0, b.0) implies m2.tiles@[
            #[trigger] m2.idx_of(x, a.1)] == TileType::Floor by {
            crate::grid::lemma_row_major_in_range(m2.width as int, m2.height as int, x, a.1);
            assert(m1.tiles@[m1.idx_of(x, a.1)] == TileType::Floor);
        }
        assert forall|y: int|
            crate::fov::imin(a.1, b.1) <= y <= crate::fov::imax(a.1, b.1) implies m2.tiles@[
            #[trigger] m2.idx_of(b.0, y)] == TileType::Floor by {
            crate::grid::lemma_row_major_in_range(m2.width as int, m2.height as int, b.0, y);
            assert(m1.tiles@[m1.idx_of(b.0, y)] == TileType::Floor);
        }
        assert(m2.span_floor_h(a.0, b.0, a.1) && m2.span_floor_v(a.1, b.1, b.0));
    } else {
        assert(m1.span_floor_v(a.1, b.1, a.0) && m1.span_floor_h(a.0, b.0, b.1));
        assert forall|y: int|
            crate::fov::imin(a.1, b.1) <= y <= crate::fov::imax(a.1, b.1) implies m2.tiles@[
            #[trigger] m2.idx_of(a.0, y)] == TileType::Floor by {
            crate::grid::lemma_row_major_in_range(m2.width as int, m2.height as int, a.0, y);
            assert(m1.tiles@[m1.idx_of(a.0, y)] == TileType::Floor);
        }
        assert forall|x: int|
            crate::fov::imin(a.0, b.0) <= x <= crate::fov::imax(a.0, b.0) implies m2.tiles@[
            #[trigger] m2.idx_of(x, b.1)] == TileType::Floor by {
            crate::grid::lemma_row_major_in_range(m2.width as int, m2.height as int, x, b.1);
            assert(m1.tiles@[m1.idx_of(x, b.1)] == TileType::Floor);
        }
        assert(m2.span_floor_v(a.1, b.1, a.0) && m2.span_floor_h(a.0, b.0, b.1));
    }
}

/// Coordinates recovered from a row-major index by division and
/// remainder land back on the same index, inside the grid.
pub proof fn lemma_idx_coords(w: int, h: int, idx: int)
    requires
        0 < w,
        0 < h,
        0 <= idx < w * h,
    ensures
        0 <= idx % w < w,
        0 <= idx / w < h,
        idx == (idx / w) * w + (idx % w),
{
    vstd::arithmetic::div_mod::lemma_fundamental_div_mod(idx, w);
    vstd::arithmetic::div_mod::lemma_mod_bound(idx, w);
    assert((idx / w) * w == w * (idx / w)) by (nonlinear_arith);
    assert(0 <= idx / w < h) by (nonlinear_arith)
        requires
            idx == w * (idx / w) + idx % w,
            0 <= idx % w < w,
            0 <= idx < w * h,
            0 < w,
            0 < h,
    ;
}

/// Row-major indexing is a bijection between in-bounds coordinates and
/// the interval from zero up to width times height.
pub proof fn lemma_index_bijective(m: GameMap)
    requires
        m.inv(),
    ensures
        forall|x: int, y: int| m.in_bounds(x, y) ==> 0 <= #[trigger] m.idx_of(x, y) < m.width * m.height,
        forall|x1: int, y1: int, x2: int, y2: int|
            m.in_bounds(x1, y1) && m.in_bounds(x2, y2) && #[trigger] m.idx_of(x1, y1)
                == #[trigger] m.idx_of(x2, y2) ==> x1 == x2 && y1 == y2,
        forall|i: int|
            0 <= i < m.width * m.height ==> m.in_bounds(#[trigger] (i % (m.width as int)), i / (
            m.width as int)) && m.idx_of(i % (m.width as int), i / (m.width as int)) == i,
{
    assert forall|x: int, y: int| m.in_bounds(x, y) implies 0 <= #[trigger] m.idx_of(x, y)
        < m.width * m.height by {
        assert(0 <= y * m.width + x < m.width * m.height) by (nonlinear_arith)
            requires
                0 <= x < m.width,
                0 <= y < m.height,
        ;
    }
    assert forall|x1: int, y1: int, x2: int, y2: int|
        m.in_bounds(x1, y1) && m.in_bounds(x2, y2) && #[trigger] m.idx_of(x1, y1)
            == #[trigger] m.idx_of(x2, y2) implies x1 == x2 && y1 == y2 by {
        assert(x1 == x2 && y1 == y2) by (nonlinear_arith)
            requires
                0 <= x1 < m.width,
                0 <= x2 < m.width,
                0 <= y1 < m.height,
                0 <= y2 < m.height,
                y1 * m.width + x1 == y2 * m.width + x2,
        ;
    }
    assert forall|i: int| 0 <= i < m.width * m.height implies m.in_bounds(
        #[trigger] (i % (m.width as int)),
        i / (m.width as int),
    ) && m.idx_of(i % (m.width as int), i / (m.width as int)) == i by {
        lemma_idx_coords(m.width as int, m.height as int, i);
    }
}

} // verus!
