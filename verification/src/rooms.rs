//! Placement of non-overlapping axis-aligned rectangular rooms.
//!
//! Each placement attempt draws a candidate position and extent, shifts the
//! candidate back onto the grid if it hangs over the right or bottom edge,
//! and accepts it only if it touches no previously accepted room; a rejected
//! candidate is discarded silently, so placement is best-effort.

use vstd::prelude::*;

use crate::ConfigError;
use crate::Generator;
use crate::rng;

verus! {

/// Size constraints for spawning rooms.
#[derive(Debug, Clone, Copy)]
pub struct Size {
    /// Smallest width and height a room may get (inclusive).
    pub min_size: (usize, usize),
    /// Upper bounds on a room's width and height (exclusive).
    pub max_size: (usize, usize),
}

impl Size {
    /// Bundle inclusive minimum and exclusive maximum extents.
    pub fn new(min_size: (usize, usize), max_size: (usize, usize)) -> (result: Self)
        ensures
            result == (Self { min_size, max_size }),
    {
        Self { min_size, max_size }
    }
}

/// An axis-aligned rectangle of cells: `x..x2` by `y..y2`.
#[derive(Debug, Clone, Copy, PartialEq, Eq, Structural)]
pub struct Room {
    /// Leftmost column covered.
    pub x: usize,
    /// Topmost row covered.
    pub y: usize,
    /// One past the rightmost column covered.
    pub x2: usize,
    /// One past the bottom row covered.
    pub y2: usize,
    /// Number of columns covered.
    pub width: usize,
    /// Number of rows covered.
    pub height: usize,
}

impl Room {
    /// The corner fields agree with the extent fields.
    pub open spec fn wf(self) -> bool {
        &&& self.x2 == self.x + self.width
        &&& self.y2 == self.y + self.height
    }

    /// Every covered cell lies within a `width` by `height` grid.
    pub open spec fn contained_in(self, width: usize, height: usize) -> bool {
        &&& self.x2 <= width
        &&& self.y2 <= height
    }

    /// The inclusive-bound intersection rule: rooms that merely touch count
    /// as overlapping, which keeps accepted rooms separated by a gap.
    pub open spec fn spec_intersects(self, other: Room) -> bool {
        &&& self.x <= other.x2
        &&& self.x2 >= other.x
        &&& self.y <= other.y2
        &&& self.y2 >= other.y
    }

    /// Create a new room from its top-left corner and extent.
    pub fn new(x: usize, y: usize, width: usize, height: usize) -> (result: Self)
        requires
            x + width <= usize::MAX,
            y + height <= usize::MAX,
        ensures
            result == (Room { x, y, x2: (x + width) as usize, y2: (y + height) as usize, width, height }),
            result.wf(),
    {
        Room { x, y, x2: x + width, y2: y + height, width, height }
    }

    /// Whether two rooms overlap or touch.
    pub fn intersects(&self, other: &Self) -> (result: bool)
        ensures
            result == self.spec_intersects(*other),
    {
        self.x <= other.x2 && self.x2 >= other.x && self.y <= other.y2 && self.y2 >= other.y
    }
}

/// Whether the flat index `i` of a row-major grid of the given width falls
/// inside the room's rectangle.
pub open spec fn cell_in_room(room: Room, width: int, i: int) -> bool {
    &&& room.x <= i % width < room.x2
    &&& room.y <= i / width < room.y2
}

/// Whether the cell `i` has been painted after `rows_done` full rows of the
/// room and `cols_done` cells of the next row.
spec fn painted_upto(room: Room, width: int, rows_done: int, cols_done: int, i: int) -> bool {
    &&& room.x <= i % width < room.x2
    &&& {
        ||| room.y <= i / width < room.y + rows_done
        ||| (i / width == room.y + rows_done && room.x <= i % width < room.x + cols_done)
    }
}

/// A flat index assembled from in-range coordinates decomposes back into them.
proof fn lemma_flat_coords(width: int, c: int, r: int)
    requires
        0 < width,
        0 <= c < width,
        0 <= r,
    ensures
        (c + r * width) % width == c,
        (c + r * width) / width == r,
{
    vstd::arithmetic::div_mod::lemma_fundamental_div_mod_converse_mod(c + r * width, width, r, c);
    vstd::arithmetic::div_mod::lemma_fundamental_div_mod_converse_div(c + r * width, width, r, c);
}

impl Generator {
    /// No two accepted rooms overlap or touch.
    pub open spec fn rooms_ok(self) -> bool {
        forall|i: int, j: int|
            0 <= i < j < self.rooms@.len()
                ==> !(#[trigger] self.rooms@[i]).spec_intersects(#[trigger] self.rooms@[j])
    }

    /// Every accepted room lies fully on the grid.
    pub open spec fn rooms_in_grid(self) -> bool {
        forall|i: int|
            0 <= i < self.rooms@.len()
                ==> (#[trigger] self.rooms@[i]).wf() && self.rooms@[i].contained_in(
                    self.width,
                    self.height,
                )
    }

    /// The bounds under which a placement attempt can neither panic nor leave
    /// the grid: the grid has cells, each sampling range is non-empty, and the
    /// largest extent that can be drawn still fits.
    pub open spec fn room_config_valid(self, size: Size) -> bool {
        &&& 1 <= self.width
        &&& 1 <= self.height
        &&& size.min_size.0 < size.max_size.0
        &&& size.min_size.1 < size.max_size.1
        &&& size.max_size.0 - 1 <= self.width
        &&& size.max_size.1 - 1 <= self.height
    }

    /// The error reported for an invalid placement configuration.
    pub open spec fn room_config_error(self, size: Size) -> ConfigError {
        if self.width < 1 || self.height < 1 {
            ConfigError::EmptyGrid
        } else if size.min_size.0 >= size.max_size.0 || size.min_size.1 >= size.max_size.1 {
            ConfigError::InvalidSizeBounds
        } else {
            ConfigError::RoomTooLarge
        }
    }

    /// One placement attempt accepted a room: the room list grew by that
    /// room, it fits the requested bounds, it avoids every earlier room, and
    /// exactly its rectangle was painted with `number`.
    pub open spec fn spec_room_accepted(pre: Self, post: Self, number: usize, size: Size) -> bool {
        let r = post.rooms@.last();
        &&& post.rooms@ == pre.rooms@.push(r)
        &&& r.wf()
        &&& r.contained_in(pre.width, pre.height)
        &&& size.min_size.0 <= r.width < size.max_size.0
        &&& size.min_size.1 <= r.height < size.max_size.1
        &&& (forall|j: int| 0 <= j < pre.rooms@.len() ==> !r.spec_intersects(#[trigger] pre.rooms@[j]))
        &&& post.map@.len() == pre.map@.len()
        &&& (forall|i: int|
            0 <= i < pre.map@.len()
                ==> #[trigger] post.map@[i] == (if cell_in_room(r, pre.width as int, i) {
                    number
                } else {
                    pre.map@[i]
                }))
    }

    /// Room non-overlap law: in a room history without overlaps, no two
    /// accepted rooms intersect or touch, in either order. [`Self::new`]
    /// starts with such a history and [`Self::spawn_rooms`] preserves it, so
    /// the rooms accepted across any sequence of placement calls are mutually
    /// non-overlapping under the inclusive-bound intersection rule.
    pub proof fn lemma_rooms_non_overlapping(g: Generator, i: int, j: int)
        requires
            g.rooms_ok(),
            0 <= i < g.rooms@.len(),
            0 <= j < g.rooms@.len(),
            i != j,
        ensures
            !g.rooms@[i].spec_intersects(g.rooms@[j]),
    {
    }

    /// Room containment law: in a room history that lies on the grid, every
    /// accepted room's rectangle falls fully within
    /// `[0, width) x [0, height)`. [`Self::new`] starts with such a history
    /// and [`Self::spawn_rooms`] preserves it.
    pub proof fn lemma_rooms_contained(g: Generator, i: int)
        requires
            g.rooms_in_grid(),
            0 <= i < g.rooms@.len(),
        ensures
            g.rooms@[i].wf(),
            g.rooms@[i].x + g.rooms@[i].width <= g.width,
            g.rooms@[i].y + g.rooms@[i].height <= g.height,
    {
    }

    /// Draw one candidate room; accept and stamp it only if it collides with
    /// no previously accepted room.
    #[verifier::loop_isolation(false)]
    fn spawn_room(&mut self, number: usize, size: &Size, rng: &mut rand::rngs::StdRng)
        requires
            old(self).grid_wf(),
            old(self).room_config_valid(*size),
        ensures
            final(self).width == old(self).width,
            final(self).height == old(self).height,
            final(self).seed == old(self).seed,
            final(self).noise_options == old(self).noise_options,
            final(self).grid_wf(),
            final(self).rooms@.len() == old(self).rooms@.len() || final(self).rooms@.len() == old(
                self,
            ).rooms@.len() + 1,
            final(self).rooms@.len() == old(self).rooms@.len() ==> final(self).rooms@ == old(
                self,
            ).rooms@ && final(self).map@ == old(self).map@,
            final(self).rooms@.len() == old(self).rooms@.len() + 1
                ==> Self::spec_room_accepted(*old(self), *final(self), number, *size),
            old(self).rooms@.len() == 0 ==> final(self).rooms@.len() == 1,
    {
        let x0 = rng::rng_range(rng, 0, self.width);
        let y0 = rng::rng_range(rng, 0, self.height);
        let w = rng::rng_range(rng, size.min_size.0, size.max_size.0);
        let h = rng::rng_range(rng, size.min_size.1, size.max_size.1);

        // Shift the room back onto the grid if it hangs over an edge; the
        // comparison is phrased by subtraction, which cannot underflow since
        // the extent fits the grid.
        let x = if x0 > self.width - w {
            self.width - w
        } else {
            x0
        };
        let y = if y0 > self.height - h {
            self.height - h
        } else {
            y0
        };

        let room = Room::new(x, y, w, h);

        let mut collides = false;
        let mut k: usize = 0;
        while k < self.rooms.len()
            invariant
                k <= self.rooms@.len(),
                collides == (exists|j: int|
                    0 <= j < k && room.spec_intersects(#[trigger] self.rooms@[j])),
            decreases self.rooms@.len() - k,
        {
            let other = self.rooms[k];
            if room.intersects(&other) {
                collides = true;
            }
            k = k + 1;
        }

        if !collides {
            let ghost pre = *self;
            let mut row: usize = 0;
            while row < h
                invariant
                    row <= h,
                    self.width == pre.width,
                    self.height == pre.height,
                    self.seed == pre.seed,
                    self.noise_options == pre.noise_options,
                    self.rooms@ == pre.rooms@,
                    self.map@.len() == pre.map@.len(),
                    forall|i: int|
                        0 <= i < self.map@.len() ==> #[trigger] self.map@[i] == (
                        if painted_upto(room, pre.width as int, row as int, 0, i) {
                            number
                        } else {
                            pre.map@[i]
                        }),
                decreases h - row,
            {
                let mut col: usize = 0;
                while col < w
                    invariant
                        row < h,
                        col <= w,
                        self.width == pre.width,
                        self.height == pre.height,
                        self.seed == pre.seed,
                        self.noise_options == pre.noise_options,
                        self.rooms@ == pre.rooms@,
                        self.map@.len() == pre.map@.len(),
                        forall|i: int|
                            0 <= i < self.map@.len() ==> #[trigger] self.map@[i] == (
                            if painted_upto(room, pre.width as int, row as int, col as int, i) {
                                number
                            } else {
                                pre.map@[i]
                            }),
                    decreases w - col,
                {
                    let ghost before = self.map@;
                    self.set(x + col, y + row, number);
                    proof {
                        let wd = pre.width as int;
                        let idx = (x + col) + (y + row) * wd;
                        lemma_flat_coords(wd, x + col as int, y + row as int);
                        crate::lemma_row_major_index_in_range(
                            wd,
                            pre.height as int,
                            x + col as int,
                            y + row as int,
                        );
                        assert(0 <= idx < before.len());
                        assert(idx % wd == x + col && idx / wd == y + row);
                        assert(painted_upto(room, wd, row as int, col + 1, idx));
                        assert forall|i: int| 0 <= i < self.map@.len() implies #[trigger] self.map@[i]
                            == (if painted_upto(room, wd, row as int, col + 1, i) {
                            number
                        } else {
                            pre.map@[i]
                        }) by {
                            assert(self.map@ == before.update(idx, number));
                            assert(before[i] == (if painted_upto(room, wd, row as int, col as int, i) {
                                number
                            } else {
                                pre.map@[i]
                            }));
                            vstd::arithmetic::div_mod::lemma_fundamental_div_mod(i, wd);
                            let cx = i % wd;
                            let cy = i / wd;
                            if i == idx {
                            } else {
                                if cy == y + row && cx == x + col {
                                    assert(i == wd * cy + cx);
                                    assert(wd * (y + row) == (y + row) * wd) by (nonlinear_arith);
                                    assert(false);
                                }
                                assert(painted_upto(room, wd, row as int, col + 1, i)
                                    == painted_upto(room, wd, row as int, col as int, i));
                            }
                        }
                    }
                    col = col + 1;
                }
                proof {
                    let wd = pre.width as int;
                    assert forall|i: int| 0 <= i < self.map@.len() implies (painted_upto(
                        room,
                        wd,
                        row + 1 as int,
                        0,
                        i,
                    ) == painted_upto(room, wd, row as int, w as int, i)) by {}
                }
                row = row + 1;
            }
            proof {
                let wd = pre.width as int;
                assert forall|i: int| 0 <= i < self.map@.len() implies (painted_upto(
                    room,
                    wd,
                    h as int,
                    0,
                    i,
                ) == cell_in_room(room, wd, i)) by {}
            }
            self.rooms.push(room);
        }
    }

    /// Spawns up to `rooms` rooms of varying sizes based on the input `size`,
    /// stamping each accepted room's rectangle with `number`.
    ///
    /// Candidates that would overlap or touch a previously accepted room —
    /// including rooms accepted by earlier calls on this generator — are
    /// discarded silently, so fewer than `rooms` rooms may be placed; callers
    /// needing a guaranteed count must compare the room list's growth against
    /// the request.
    ///
    /// Every call draws from a generator freshly seeded with the map's seed,
    /// so one configuration always attempts the same candidates.
    ///
    /// An invalid configuration is rejected before any cell is touched.
    #[verifier::loop_isolation(false)]
    pub fn spawn_rooms(self, number: usize, rooms: usize, size: &Size) -> (result: Result<
        Self,
        ConfigError,
    >)
        requires
            self.grid_wf(),
        ensures
            result is Ok <==> self.room_config_valid(*size),
            result is Err ==> result->Err_0 == self.room_config_error(*size),
            result is Ok ==> ({
                let g = result->Ok_0;
                &&& g.width == self.width
                &&& g.height == self.height
                &&& g.seed == self.seed
                &&& g.noise_options == self.noise_options
                &&& g.grid_wf()
                &&& self.rooms@.is_prefix_of(g.rooms@)
                &&& g.rooms@.len() <= self.rooms@.len() + rooms
                &&& (forall|k: int|
                    self.rooms@.len() <= k < g.rooms@.len() ==> {
                        let r = #[trigger] g.rooms@[k];
                        &&& r.wf()
                        &&& r.contained_in(self.width, self.height)
                        &&& size.min_size.0 <= r.width < size.max_size.0
                        &&& size.min_size.1 <= r.height < size.max_size.1
                        &&& (forall|j: int| 0 <= j < k ==> !r.spec_intersects(#[trigger] g.rooms@[j]))
                    })
                &&& g.map@.len() == self.map@.len()
                &&& (forall|i: int|
                    0 <= i < self.map@.len() ==> #[trigger] g.map@[i] == (if (exists|k: int|
                        self.rooms@.len() <= k < g.rooms@.len() && cell_in_room(
                            #[trigger] g.rooms@[k],
                            self.width as int,
                            i,
                        )) {
                        number
                    } else {
                        self.map@[i]
                    }))
                &&& (self.rooms_ok() ==> g.rooms_ok())
                &&& (self.rooms_in_grid() ==> g.rooms_in_grid())
                &&& (self.rooms@.len() == 0 && rooms >= 1 ==> g.rooms@.len() >= 1)
            }),
    {
        if self.width < 1 || self.height < 1 {
            return Err(ConfigError::EmptyGrid);
        }
        if size.min_size.0 >= size.max_size.0 || size.min_size.1 >= size.max_size.1 {
            return Err(ConfigError::InvalidSizeBounds);
        }
        if size.max_size.0 - 1 > self.width || size.max_size.1 - 1 > self.height {
            return Err(ConfigError::RoomTooLarge);
        }

        let mut g = self;
        let ghost pre = g;
        let mut r = rng::rng_from_seed(g.seed as u64);
        let mut n: usize = 0;
        while n < rooms
            invariant
                n <= rooms,
                g.width == pre.width,
                g.height == pre.height,
                g.seed == pre.seed,
                g.noise_options == pre.noise_options,
                g.grid_wf(),
                pre.rooms@.is_prefix_of(g.rooms@),
                g.rooms@.len() <= pre.rooms@.len() + n,
                pre.rooms@.len() == 0 && n >= 1 ==> g.rooms@.len() >= 1,
                forall|k: int|
                    pre.rooms@.len() <= k < g.rooms@.len() ==> {
                        let rm = #[trigger] g.rooms@[k];
                        &&& rm.wf()
                        &&& rm.contained_in(pre.width, pre.height)
                        &&& size.min_size.0 <= rm.width < size.max_size.0
                        &&& size.min_size.1 <= rm.height < size.max_size.1
                        &&& (forall|j: int|
                            0 <= j < k ==> !rm.spec_intersects(#[trigger] g.rooms@[j]))
                    },
                g.map@.len() == pre.map@.len(),
                forall|i: int|
                    0 <= i < pre.map@.len() ==> #[trigger] g.map@[i] == (if (exists|k: int|
                        pre.rooms@.len() <= k < g.rooms@.len() && cell_in_room(
                            #[trigger] g.rooms@[k],
                            pre.width as int,
                            i,
                        )) {
                        number
                    } else {
                        pre.map@[i]
                    }),
            decreases rooms - n,
        {
            let ghost mid = g;
            g.spawn_room(number, size, &mut r);
            proof {
                if g.rooms@.len() == mid.rooms@.len() + 1 {
                    let added = g.rooms@.last();
                    assert(mid.rooms@.is_prefix_of(g.rooms@));
                    assert forall|i: int| 0 <= i < pre.map@.len() implies #[trigger] g.map@[i] == (
                    if (exists|k: int|
                        pre.rooms@.len() <= k < g.rooms@.len() && cell_in_room(
                            #[trigger] g.rooms@[k],
                            pre.width as int,
                            i,
                        )) {
                        number
                    } else {
                        pre.map@[i]
                    }) by {
                        let wd = pre.width as int;
                        if cell_in_room(added, wd, i) {
                            assert(g.rooms@[g.rooms@.len() - 1] == added);
                        } else {
                            if exists|k: int|
                                pre.rooms@.len() <= k < mid.rooms@.len() && cell_in_room(
                                    #[trigger] mid.rooms@[k],
                                    wd,
                                    i,
                                ) {
                                let k = choose|k: int|
                                    pre.rooms@.len() <= k < mid.rooms@.len() && cell_in_room(
                                        #[trigger] mid.rooms@[k],
                                        wd,
                                        i,
                                    );
                                assert(g.rooms@[k] == mid.rooms@[k]);
                            } else {
                                assert forall|k: int|
                                    pre.rooms@.len() <= k < g.rooms@.len() implies !cell_in_room(
                                    #[trigger] g.rooms@[k],
                                    wd,
                                    i,
                                ) by {
                                    if k < mid.rooms@.len() {
                                        assert(g.rooms@[k] == mid.rooms@[k]);
                                    }
                                }
                            }
                        }
                    }
                }
            }
            n = n + 1;
        }
        proof {
            if pre.rooms_ok() {
                assert forall|i: int, j: int| 0 <= i < j < g.rooms@.len() implies !(
                #[trigger] g.rooms@[i]).spec_intersects(#[trigger] g.rooms@[j]) by {
                    if j < pre.rooms@.len() {
                        assert(g.rooms@[i] == pre.rooms@[i]);
                        assert(g.rooms@[j] == pre.rooms@[j]);
                    } else {
                        if i < pre.rooms@.len() {
                            assert(g.rooms@[i] == pre.rooms@[i]);
                        }
                    }
                }
            }
            if pre.rooms_in_grid() {
                assert forall|i: int| 0 <= i < g.rooms@.len() implies (#[trigger] g.rooms@[i]).wf()
                    && g.rooms@[i].contained_in(g.width, g.height) by {
                    if i < pre.rooms@.len() {
                        assert(g.rooms@[i] == pre.rooms@[i]);
                    }
                }
            }
        }
        Ok(g)
    }
}

} // verus!
