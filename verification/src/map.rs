use vstd::prelude::*;
use crate::rect::{Rect, min_i, max_i};
use crate::stage::{Stage, Room, Door};
use crate::rpg::roll_range;

verus! {

/// What a tile of the map is made of.
#[derive(Clone, Copy, Debug, PartialEq, Eq, Structural)]
pub enum TileType {
    Wall,
    Floor,
}

pub const MAPWIDTH: i32 = 50;

pub const MAPHEIGHT: i32 = 50;

pub const MAPCOUNT: usize = 2500;

/// The tile grid of a stage, stored row by row, with the code of the room
/// each floor cell belongs to.
///
/// `rooms` is an association list from cells to room codes in which a later
/// entry for a cell overrides an earlier one.
pub struct TileMap {
    pub tiles: Vec<TileType>,
    pub width: i32,
    pub height: i32,
    pub revealed_tiles: Vec<bool>,
    pub visible_tiles: Vec<bool>,
    pub rooms: Vec<((i32, i32), String)>,
}

/// Index of cell `(x, y)` in a row-by-row grid of width `w`.
pub open spec fn cell_index(x: int, y: int, w: int) -> int {
    y * w + x
}

/// Cell `(x, y)` is inside room outline `r` (the outline's left and top
/// lines are walls, its right and bottom lines are floor).
pub open spec fn in_room(r: Rect, x: int, y: int) -> bool {
    r.x1 < x <= r.x2 && r.y1 < y <= r.y2
}

/// Every cell of room outline `r` has non-negative coordinates and an index
/// below `len` in a grid of width `w` (an outline without cells fits
/// anywhere), and the first row of the outline, and its first column where
/// it has rows, can be computed without overflow.
pub open spec fn room_fits(r: Rect, w: int, len: int) -> bool {
    &&& r.y1 < i32::MAX
    &&& (r.y2 <= r.y1 || r.x1 < i32::MAX)
    &&& (r.x2 <= r.x1 || r.y2 <= r.y1 || (r.x1 >= -1 && r.y1 >= -1 && cell_index(
        r.x2 as int,
        r.y2 as int,
        w,
    ) < len))
}

/// Tile `i` is a cell `(x, y)` of room outline `r`.
pub open spec fn room_hits(r: Rect, x: int, y: int, i: int, w: int) -> bool {
    in_room(r, x, y) && cell_index(x, y, w) == i
}

/// Tile `i` is a cell of room outline `r`.
pub open spec fn room_covers(r: Rect, i: int, w: int) -> bool {
    exists|x: int, y: int| #[trigger] room_hits(r, x, y, i, w)
}

/// The room code that the association list gives for `key`: the last entry for it.
pub open spec fn code_at(rooms: Seq<((i32, i32), String)>, key: (i32, i32)) -> Option<Seq<char>>
    decreases rooms.len(),
{
    if rooms.len() == 0 {
        None
    } else if rooms.last().0 == key {
        Some(rooms.last().1@)
    } else {
        code_at(rooms.drop_last(), key)
    }
}


/// Tile `i` is cell `(x, y)` of the block of cells with `xl <= x <= xh` and `yl <= y <= yh`.
pub open spec fn block_hits(xl: int, xh: int, yl: int, yh: int, x: int, y: int, i: int, w: int) -> bool {
    xl <= x <= xh && yl <= y <= yh && cell_index(x, y, w) == i
}

/// Tile `i` is a cell of the block `[xl, xh] x [yl, yh]`.
pub open spec fn block_covers(xl: int, xh: int, yl: int, yh: int, i: int, w: int) -> bool {
    exists|x: int, y: int| #[trigger] block_hits(xl, xh, yl, yh, x, y, i, w)
}

/// The lines (rows or columns) through which a door of `width` lines passes
/// between a room spanning `(a_lo, a_hi]` and one spanning `(b_lo, b_hi]`:
/// the lines both rooms share, narrowed around their middle to at most
/// `width` lines, the first line giving way first. Returned as an inclusive range.
pub open spec fn door_span(a_lo: int, a_hi: int, b_lo: int, b_hi: int, width: int) -> (int, int) {
    let lo = max_i(a_lo, b_lo) + 1;
    let hi = min_i(a_hi, b_hi);
    let n = hi - lo + 1;
    if n > width {
        let k = n - width;
        (lo + (k + 1) / 2, hi - k / 2)
    } else {
        (lo, hi)
    }
}

/// The block of cells a door of `width` lines carves between room outlines
/// `r1` and `r2`: rows shared by both rooms when `horizontal`, otherwise
/// columns; across, every cell strictly between the outer edges of the two rooms.
pub open spec fn door_block(r1: Rect, r2: Rect, width: int, horizontal: bool) -> (int, int, int, int) {
    if horizontal {
        let (lo, hi) = door_span(r1.y1 as int, r1.y2 as int, r2.y1 as int, r2.y2 as int, width);
        (min_i(r1.x1 as int, r2.x1 as int) + 1, max_i(r1.x2 as int, r2.x2 as int) - 1, lo, hi)
    } else {
        let (lo, hi) = door_span(r1.x1 as int, r1.x2 as int, r2.x1 as int, r2.x2 as int, width);
        (lo, hi, min_i(r1.y1 as int, r2.y1 as int) + 1, max_i(r1.y2 as int, r2.y2 as int) - 1)
    }
}

/// Tile `i` is carved by a door of `width` lines between `r1` and `r2`.
pub open spec fn door_covers(r1: Rect, r2: Rect, width: int, horizontal: bool, i: int, w: int) -> bool {
    let b = door_block(r1, r2, width, horizontal);
    block_covers(b.0, b.1, b.2, b.3, i, w)
}

/// The lines of a door between a room spanning `(a_lo, a_hi]` and one spanning
/// `(b_lo, b_hi]`: the shared lines, then, while there are more than `width`,
/// the first one and (if still more) the last one dropped.
fn door_lines(a_lo: i32, a_hi: i32, b_lo: i32, b_hi: i32, width: usize) -> (r: Vec<i32>)
    requires
        a_lo < i32::MAX,
    ensures
        r@.len() == if door_span(a_lo as int, a_hi as int, b_lo as int, b_hi as int, width as int).1
            >= door_span(a_lo as int, a_hi as int, b_lo as int, b_hi as int, width as int).0 {
            door_span(a_lo as int, a_hi as int, b_lo as int, b_hi as int, width as int).1
                - door_span(a_lo as int, a_hi as int, b_lo as int, b_hi as int, width as int).0 + 1
        } else {
            0
        },
        forall|k: int|
            0 <= k < r@.len() ==> #[trigger] r@[k] == door_span(
                a_lo as int,
                a_hi as int,
                b_lo as int,
                b_hi as int,
                width as int,
            ).0 + k,
{
    let ghost lo = max_i(a_lo as int, b_lo as int) + 1;
    let ghost hi = min_i(a_hi as int, b_hi as int);
    let mut lines: Vec<i32> = Vec::new();
    let mut v: i64 = a_lo as i64 + 1;
    while v <= a_hi as i64
        invariant
            lo == max_i(a_lo as int, b_lo as int) + 1,
            hi == min_i(a_hi as int, b_hi as int),
            a_lo + 1 <= v <= a_hi + 1 || v == a_lo + 1,
            lines@.len() == if min_i(v - 1, hi) >= lo {
                min_i(v - 1, hi) - lo + 1
            } else {
                0
            },
            forall|k: int| 0 <= k < lines@.len() ==> #[trigger] lines@[k] == lo + k,
        decreases a_hi + 1 - v,
    {
        if v > b_lo as i64 && v <= b_hi as i64 {
            lines.push(v as i32);
        }
        v = v + 1;
    }
    let ghost n0 = lines@.len() as int;
    let ghost mut front: int = 0;
    let ghost mut back: int = 0;
    while lines.len() > width
        invariant
            lo == max_i(a_lo as int, b_lo as int) + 1,
            hi == min_i(a_hi as int, b_hi as int),
            n0 == (if hi >= lo { hi - lo + 1 } else { 0 }),
            front + back + lines@.len() == n0,
            front == back || front == back + 1,
            front == back + 1 ==> lines@.len() <= width,
            n0 > width ==> lines@.len() >= width,
            n0 <= width ==> front == 0 && back == 0,
            forall|k: int| 0 <= k < lines@.len() ==> #[trigger] lines@[k] == lo + front + k,
        decreases lines@.len(),
    {
        lines.remove(0);
        proof {
            front = front + 1;
        }
        if lines.len() > width {
            let last = lines.len() - 1;
            lines.remove(last);
            proof {
                back = back + 1;
            }
        }
    }
    proof {
        if n0 > width {
            assert(front + back == n0 - width);
            assert(front == (n0 - width + 1) / 2);
            assert(back == (n0 - width) / 2);
        }
    }
    lines
}

/// Carving a door of `width` lines between `r1` and `r2` neither overflows
/// nor reaches a cell with a negative coordinate.
pub open spec fn door_fits(r1: Rect, r2: Rect, width: int, horizontal: bool) -> bool {
    let b = door_block(r1, r2, width, horizontal);
    &&& if horizontal {
        r1.y1 < i32::MAX && min_i(r1.x1 as int, r2.x1 as int) < i32::MAX
    } else {
        r1.x1 < i32::MAX && min_i(r1.y1 as int, r2.y1 as int) < i32::MAX
    }
    &&& (b.0 <= b.1 && b.2 <= b.3 ==> 0 <= b.0 && 0 <= b.2)
}

/// The code of the last room of `rooms` whose outline holds cell `(x, y)`.
pub open spec fn last_room_code(rooms: Seq<(String, Room)>, x: int, y: int) -> Option<Seq<char>>
    decreases rooms.len(),
{
    if rooms.len() == 0 {
        None
    } else if in_room(rooms.last().1.dimensions, x, y) {
        Some(rooms.last().0@)
    } else {
        last_room_code(rooms.drop_last(), x, y)
    }
}

/// Door `d` of `stage` is horizontal: its two rooms are lined up horizontally.
pub open spec fn door_is_horizontal(stage: Stage, d: Door) -> bool {
    stage.room_outline(d.room1@).lined_horizontal(stage.room_outline(d.room2@))
}

/// Tile `i` of a grid of width `w` is carved by door `d` of `stage`.
pub open spec fn stage_door_covers(stage: Stage, d: Door, i: int, w: int) -> bool {
    door_covers(
        stage.room_outline(d.room1@),
        stage.room_outline(d.room2@),
        d.width as int,
        door_is_horizontal(stage, d),
        i,
        w,
    )
}

/// The stage can be laid out on a map: room codes are unique, every room
/// fits the grid, and every door joins two existing rooms and fits the grid.
pub open spec fn stage_fits(stage: Stage) -> bool {
    &&& stage.room_keys_unique()
    &&& forall|j: int|
        0 <= j < stage.rooms@.len() ==> room_fits(
            #[trigger] stage.rooms@[j].1.dimensions,
            MAPWIDTH as int,
            MAPCOUNT as int,
        )
    &&& forall|k: int|
        0 <= k < stage.doors@.len() ==> {
            let d = #[trigger] stage.doors@[k];
            &&& stage.has_room(d.room1@)
            &&& stage.has_room(d.room2@)
            &&& door_fits(
                stage.room_outline(d.room1@),
                stage.room_outline(d.room2@),
                d.width as int,
                door_is_horizontal(stage, d),
            )
        }
}

/// Tile `i` of a new map for `stage` is floor: it lies in a room or in a door.
pub open spec fn stage_floor(stage: Stage, i: int) -> bool {
    ||| exists|j: int|
        0 <= j < stage.rooms@.len() && room_covers(
            #[trigger] stage.rooms@[j].1.dimensions,
            i,
            MAPWIDTH as int,
        )
    ||| exists|k: int|
        0 <= k < stage.doors@.len() && stage_door_covers(
            stage,
            #[trigger] stage.doors@[k],
            i,
            MAPWIDTH as int,
        )
}

/// `a / b` as Rust computes it on integers: rounded toward zero (in specs
/// `/` is Euclidean division).
pub open spec fn trunc_div(a: int, b: int) -> int {
    if a >= 0 {
        a / b
    } else {
        -((-a) / b)
    }
}

/// `a % b` as Rust computes it on integers: the sign follows `a`.
pub open spec fn trunc_rem(a: int, b: int) -> int {
    if a >= 0 {
        a % b
    } else {
        -((-a) % b)
    }
}

/// `v` limited to `[lo, hi]` as `min(hi, max(lo, v))` computes it.
pub open spec fn clamp(v: int, lo: int, hi: int) -> int {
    min_i(hi, max_i(lo, v))
}

impl TileMap {
    /// The tile grids all have `width * height` entries.
    pub open spec fn wf(self) -> bool {
        &&& 0 <= self.width
        &&& 0 <= self.height
        &&& self.tiles@.len() == self.width * self.height
        &&& self.revealed_tiles@.len() == self.tiles@.len()
        &&& self.visible_tiles@.len() == self.tiles@.len()
    }

    /// The room code of cell `(x, y)`, if it belongs to a room.
    pub open spec fn room_code(self, x: i32, y: i32) -> Option<Seq<char>> {
        code_at(self.rooms@, (x, y))
    }

    /// Index of cell `(x, y)` in the tile grids.
    pub fn xy_idx(&self, x: i32, y: i32) -> (r: usize)
        requires
            0 <= x,
            0 <= y,
            0 <= self.width,
            cell_index(x as int, y as int, self.width as int) <= usize::MAX,
        ensures
            r == cell_index(x as int, y as int, self.width as int),
    {
        proof {
            assert(0 <= (y as int) * (self.width as int)) by (nonlinear_arith)
                requires
                    0 <= y,
                    0 <= self.width,
            ;
        }
        (y as usize * self.width as usize) + x as usize
    }

    /// Whether the player currently sees cell `(x, y)`.
    pub fn is_visible(&self, x: i32, y: i32) -> (r: bool)
        requires
            0 <= x,
            0 <= y,
            0 <= self.width,
            cell_index(x as int, y as int, self.width as int) < self.visible_tiles@.len(),
        ensures
            r == self.visible_tiles@[cell_index(x as int, y as int, self.width as int)],
    {
        let n = self.visible_tiles.len();
        assert(cell_index(x as int, y as int, self.width as int) < n);
        self.visible_tiles[self.xy_idx(x, y)]
    }

    /// The code of the room cell `(x, y)` belongs to, if any.
    pub fn room_at(&self, x: i32, y: i32) -> (r: Option<&String>)
        ensures
            match r {
                Some(s) => self.room_code(x, y) == Some(s@),
                None => self.room_code(x, y) is None,
            },
    {
        let mut i = self.rooms.len();
        assert(self.rooms@.subrange(0, i as int) =~= self.rooms@);
        while i > 0
            invariant
                i <= self.rooms@.len(),
                code_at(self.rooms@, (x, y)) == code_at(self.rooms@.subrange(0, i as int), (x, y)),
            decreases i,
        {
            let ghost pre = self.rooms@.subrange(0, i as int);
            assert(pre.drop_last() =~= self.rooms@.subrange(0, i - 1));
            if self.rooms[i - 1].0.0 == x && self.rooms[i - 1].0.1 == y {
                return Some(&self.rooms[i - 1].1);
            }
            i = i - 1;
        }
        None
    }

    /// Turns the cells of `room` into floor and records them as part of room `code`.
    fn apply_room_to_map(&mut self, code: &String, room: &Rect)
        requires
            old(self).wf(),
            room_fits(*room, old(self).width as int, old(self).tiles@.len() as int),
        ensures
            final(self).wf(),
            final(self).width == old(self).width,
            final(self).height == old(self).height,
            final(self).revealed_tiles@ == old(self).revealed_tiles@,
            final(self).visible_tiles@ == old(self).visible_tiles@,
            forall|i: int|
                0 <= i < final(self).tiles@.len() ==> #[trigger] final(self).tiles@[i] == if room_covers(
                    *room,
                    i,
                    old(self).width as int,
                ) {
                    TileType::Floor
                } else {
                    old(self).tiles@[i]
                },
            forall|x: i32, y: i32|
                #[trigger] final(self).room_code(x, y) == if in_room(*room, x as int, y as int) {
                    Some(code@)
                } else {
                    old(self).room_code(x, y)
                },
    {
        let ghost w = self.width as int;
        let tiles_len = self.tiles.len();
        let ghost len = tiles_len as int;
        let ghost old_tiles = self.tiles@;
        let ghost old_rooms = self.rooms@;
        let mut y: i64 = room.y1 as i64 + 1;
        while y <= room.y2 as i64
            invariant
                self.wf(),
                self.width == w,
                self.height == old(self).height,
                self.tiles@.len() == len,
                self.revealed_tiles@ == old(self).revealed_tiles@,
                self.visible_tiles@ == old(self).visible_tiles@,
                room_fits(*room, w, len),
                len == tiles_len,
                room.y1 + 1 <= y,
                y <= room.y2 + 1 || y == room.y1 + 1,
                forall|i: int|
                    0 <= i < len ==> #[trigger] self.tiles@[i] == if (exists|cx: int, cy: int|
                        #[trigger] room_hits(*room, cx, cy, i, w) && cy < y) {
                        TileType::Floor
                    } else {
                        old_tiles[i]
                    },
                forall|kx: i32, ky: i32|
                    #[trigger] code_at(self.rooms@, (kx, ky)) == if in_room(*room, kx as int, ky as int)
                        && ky < y {
                        Some(code@)
                    } else {
                        code_at(old_rooms, (kx, ky))
                    },
            decreases room.y2 + 1 - y,
        {
            let mut x: i64 = room.x1 as i64 + 1;
            while x <= room.x2 as i64
                invariant
                    self.wf(),
                    self.width == w,
                    self.height == old(self).height,
                    self.tiles@.len() == len,
                    self.revealed_tiles@ == old(self).revealed_tiles@,
                    self.visible_tiles@ == old(self).visible_tiles@,
                    room_fits(*room, w, len),
                    len == tiles_len,
                    room.y1 + 1 <= y <= room.y2,
                    room.x1 + 1 <= x,
                    x <= room.x2 + 1 || x == room.x1 + 1,
                    forall|i: int|
                        0 <= i < len ==> #[trigger] self.tiles@[i] == if (exists|cx: int, cy: int|
                            #[trigger] room_hits(*room, cx, cy, i, w) && (cy < y || (cy == y && cx
                                < x))) {
                            TileType::Floor
                        } else {
                            old_tiles[i]
                        },
                    forall|kx: i32, ky: i32|
                        #[trigger] code_at(self.rooms@, (kx, ky)) == if in_room(
                            *room,
                            kx as int,
                            ky as int,
                        ) && (ky < y || (ky == y && kx < x)) {
                            Some(code@)
                        } else {
                            code_at(old_rooms, (kx, ky))
                        },
                decreases room.x2 + 1 - x,
            {
                proof {
                    assert((y as int) * w + x <= (room.y2 as int) * w + room.x2) by (nonlinear_arith)
                        requires
                            y <= room.y2,
                            x <= room.x2,
                            w >= 0,
                    ;
                }
                let idx = self.xy_idx(x as i32, y as i32);
                self.tiles.set(idx, TileType::Floor);
                let ghost prev_rooms = self.rooms@;
                let entry_code = code.clone();
                self.rooms.push(((x as i32, y as i32), entry_code));
                proof {
                    assert(room_hits(*room, x as int, y as int, idx as int, w));
                    assert forall|i: int| 0 <= i < len implies #[trigger] self.tiles@[i] == if (exists|
                        cx: int,
                        cy: int,
                    |
                        #[trigger] room_hits(*room, cx, cy, i, w) && (cy < y || (cy == y && cx < x
                            + 1))) {
                        TileType::Floor
                    } else {
                        old_tiles[i]
                    } by {
                        if i != idx {
                            if exists|cx: int, cy: int|
                                #[trigger] room_hits(*room, cx, cy, i, w) && (cy < y || (cy == y
                                    && cx < x + 1)) {
                                let (cx, cy) = choose|cx: int, cy: int|
                                    #[trigger] room_hits(*room, cx, cy, i, w) && (cy < y || (cy == y
                                        && cx < x + 1));
                                if cy == y && cx == x {
                                    assert(false);
                                }
                                assert(room_hits(*room, cx, cy, i, w) && (cy < y || (cy == y && cx
                                    < x)));
                            }
                        }
                    }
                    assert forall|kx: i32, ky: i32|
                        #[trigger] code_at(self.rooms@, (kx, ky)) == if in_room(
                            *room,
                            kx as int,
                            ky as int,
                        ) && (ky < y || (ky == y && kx < x + 1)) {
                            Some(code@)
                        } else {
                            code_at(old_rooms, (kx, ky))
                        } by {
                        assert(self.rooms@.drop_last() =~= prev_rooms);
                        assert(self.rooms@.last().1@ == code@);
                        let prev = code_at(prev_rooms, (kx, ky));
                        if kx as int == x && ky as int == y {
                            assert(code_at(self.rooms@, (kx, ky)) == Some(code@));
                        } else {
                            assert(code_at(self.rooms@, (kx, ky)) == prev);
                        }
                    }
                }
                x = x + 1;
            }
            proof {
                assert forall|i: int| 0 <= i < len implies #[trigger] self.tiles@[i] == if (exists|
                    cx: int,
                    cy: int,
                | #[trigger] room_hits(*room, cx, cy, i, w) && cy < y + 1) {
                    TileType::Floor
                } else {
                    old_tiles[i]
                } by {
                    if exists|cx: int, cy: int| #[trigger]
                        room_hits(*room, cx, cy, i, w) && cy < y + 1 {
                        let (cx, cy) = choose|cx: int, cy: int| #[trigger]
                            room_hits(*room, cx, cy, i, w) && cy < y + 1;
                        assert(room_hits(*room, cx, cy, i, w) && (cy < y || (cy == y && cx < x)));
                    }
                }
            }
            y = y + 1;
        }
        proof {
            assert forall|i: int| 0 <= i < len implies #[trigger] self.tiles@[i] == if room_covers(
                *room,
                i,
                w,
            ) {
                TileType::Floor
            } else {
                old_tiles[i]
            } by {
                if room_covers(*room, i, w) {
                    let (cx, cy) = choose|cx: int, cy: int| #[trigger] room_hits(*room, cx, cy, i, w);
                    assert(room_hits(*room, cx, cy, i, w) && cy < y);
                }
            }
        }
    }

    /// Turns every cell of the block `[xl, xh] x [yl, yh]` whose index falls
    /// inside the grid into floor.
    fn fill_floor(&mut self, xl: i64, xh: i64, yl: i64, yh: i64)
        requires
            old(self).wf(),
            i32::MIN <= xl,
            xh <= i32::MAX,
            i32::MIN <= yl,
            yh <= i32::MAX,
            xl <= xh && yl <= yh ==> 0 <= xl && 0 <= yl,
        ensures
            final(self).wf(),
            final(self).width == old(self).width,
            final(self).height == old(self).height,
            final(self).revealed_tiles@ == old(self).revealed_tiles@,
            final(self).visible_tiles@ == old(self).visible_tiles@,
            final(self).rooms@ == old(self).rooms@,
            forall|i: int|
                0 <= i < final(self).tiles@.len() ==> #[trigger] final(self).tiles@[i] == if block_covers(
                    xl as int,
                    xh as int,
                    yl as int,
                    yh as int,
                    i,
                    old(self).width as int,
                ) {
                    TileType::Floor
                } else {
                    old(self).tiles@[i]
                },
    {
        let ghost w = self.width as int;
        let tiles_len = self.tiles.len();
        let ghost len = tiles_len as int;
        let ghost old_tiles = self.tiles@;
        if xl > xh {
            proof {
                assert forall|i: int| 0 <= i < len implies !block_covers(
                    xl as int,
                    xh as int,
                    yl as int,
                    yh as int,
                    i,
                    w,
                ) by {}
            }
            return;
        }
        let mut y: i64 = yl;
        while y <= yh
            invariant
                self.wf(),
                self.width == w,
                self.height == old(self).height,
                self.tiles@.len() == len,
                len == tiles_len,
                self.revealed_tiles@ == old(self).revealed_tiles@,
                self.visible_tiles@ == old(self).visible_tiles@,
                self.rooms@ == old(self).rooms@,
                xl <= xh,
                yl <= yh ==> 0 <= xl && 0 <= yl,
                xh <= i32::MAX,
                yh <= i32::MAX,
                yl <= y <= yh + 1 || y == yl,
                forall|i: int|
                    0 <= i < len ==> #[trigger] self.tiles@[i] == if (exists|cx: int, cy: int|
                        #[trigger] block_hits(xl as int, xh as int, yl as int, yh as int, cx, cy, i, w)
                            && cy < y) {
                        TileType::Floor
                    } else {
                        old_tiles[i]
                    },
            decreases yh + 1 - y,
        {
            let mut x: i64 = xl;
            while x <= xh
                invariant
                    self.wf(),
                    self.width == w,
                    self.height == old(self).height,
                    self.tiles@.len() == len,
                    len == tiles_len,
                    self.revealed_tiles@ == old(self).revealed_tiles@,
                    self.visible_tiles@ == old(self).visible_tiles@,
                    self.rooms@ == old(self).rooms@,
                    0 <= xl <= xh <= i32::MAX,
                    0 <= yl <= y <= yh <= i32::MAX,
                    xl <= x <= xh + 1,
                    forall|i: int|
                        0 <= i < len ==> #[trigger] self.tiles@[i] == if (exists|cx: int, cy: int|
                            #[trigger] block_hits(
                                xl as int,
                                xh as int,
                                yl as int,
                                yh as int,
                                cx,
                                cy,
                                i,
                                w,
                            ) && (cy < y || (cy == y && cx < x))) {
                            TileType::Floor
                        } else {
                            old_tiles[i]
                        },
                decreases xh + 1 - x,
            {
                proof {
                    assert(0 <= (y as int) * w <= 0x8000_0000 * 0x8000_0000) by (nonlinear_arith)
                        requires
                            0 <= y <= 0x8000_0000,
                            0 <= w <= 0x8000_0000,
                    ;
                }
                let idx: u64 = (y as u64) * (self.width as u64) + (x as u64);
                if idx < tiles_len as u64 {
                    self.tiles.set(idx as usize, TileType::Floor);
                }
                proof {
                    assert forall|i: int| 0 <= i < len implies #[trigger] self.tiles@[i] == if (exists|
                        cx: int,
                        cy: int,
                    |
                        #[trigger] block_hits(xl as int, xh as int, yl as int, yh as int, cx, cy, i, w)
                            && (cy < y || (cy == y && cx < x + 1))) {
                        TileType::Floor
                    } else {
                        old_tiles[i]
                    } by {
                        if i == idx {
                            assert(block_hits(
                                xl as int,
                                xh as int,
                                yl as int,
                                yh as int,
                                x as int,
                                y as int,
                                i,
                                w,
                            ));
                        } else if exists|cx: int, cy: int|
                            #[trigger] block_hits(xl as int, xh as int, yl as int, yh as int, cx, cy, i, w)
                                && (cy < y || (cy == y && cx < x + 1)) {
                            let (cx, cy) = choose|cx: int, cy: int|
                                #[trigger] block_hits(xl as int, xh as int, yl as int, yh as int, cx, cy, i, w)
                                    && (cy < y || (cy == y && cx < x + 1));
                            assert(!(cx == x && cy == y));
                            assert(block_hits(xl as int, xh as int, yl as int, yh as int, cx, cy, i, w)
                                && (cy < y || (cy == y && cx < x)));
                        }
                    }
                }
                x = x + 1;
            }
            proof {
                assert forall|i: int| 0 <= i < len implies #[trigger] self.tiles@[i] == if (exists|
                    cx: int,
                    cy: int,
                |
                    #[trigger] block_hits(xl as int, xh as int, yl as int, yh as int, cx, cy, i, w) && cy
                        < y + 1) {
                    TileType::Floor
                } else {
                    old_tiles[i]
                } by {
                    if exists|cx: int, cy: int|
                        #[trigger] block_hits(xl as int, xh as int, yl as int, yh as int, cx, cy, i, w)
                            && cy < y + 1 {
                        let (cx, cy) = choose|cx: int, cy: int|
                            #[trigger] block_hits(xl as int, xh as int, yl as int, yh as int, cx, cy, i, w)
                                && cy < y + 1;
                        assert(block_hits(xl as int, xh as int, yl as int, yh as int, cx, cy, i, w) && (cy
                            < y || (cy == y && cx < x)));
                    }
                }
            }
            y = y + 1;
        }
        proof {
            assert forall|i: int| 0 <= i < len implies #[trigger] self.tiles@[i] == if block_covers(
                xl as int,
                xh as int,
                yl as int,
                yh as int,
                i,
                w,
            ) {
                TileType::Floor
            } else {
                old_tiles[i]
            } by {
                if block_covers(xl as int, xh as int, yl as int, yh as int, i, w) {
                    let (cx, cy) = choose|cx: int, cy: int|
                        #[trigger] block_hits(xl as int, xh as int, yl as int, yh as int, cx, cy, i, w);
                    assert(block_hits(xl as int, xh as int, yl as int, yh as int, cx, cy, i, w) && cy < y);
                }
            }
        }
    }

    /// Carves a door of `width` rows between two rooms lined up horizontally.
    fn apply_horizontal_door(&mut self, r1: &Rect, r2: &Rect, width: usize)
        requires
            old(self).wf(),
            door_fits(*r1, *r2, width as int, true),
        ensures
            final(self).wf(),
            final(self).width == old(self).width,
            final(self).height == old(self).height,
            final(self).revealed_tiles@ == old(self).revealed_tiles@,
            final(self).visible_tiles@ == old(self).visible_tiles@,
            final(self).rooms@ == old(self).rooms@,
            forall|i: int|
                0 <= i < final(self).tiles@.len() ==> #[trigger] final(self).tiles@[i] == if door_covers(
                    *r1,
                    *r2,
                    width as int,
                    true,
                    i,
                    old(self).width as int,
                ) {
                    TileType::Floor
                } else {
                    old(self).tiles@[i]
                },
    {
        let ys = door_lines(r1.y1, r1.y2, r2.y1, r2.y2, width);
        let xl = r1.x1.min(r2.x1) as i64 + 1;
        let xh = r1.x2.max(r2.x2) as i64 - 1;
        if ys.len() > 0 {
            let yl = ys[0] as i64;
            let yh = ys[ys.len() - 1] as i64;
            self.fill_floor(xl, xh, yl, yh);
        } else {
            proof {
                let b = door_block(*r1, *r2, width as int, true);
                assert forall|i: int| 0 <= i < self.tiles@.len() implies !door_covers(
                    *r1,
                    *r2,
                    width as int,
                    true,
                    i,
                    self.width as int,
                ) by {
                    if block_covers(b.0, b.1, b.2, b.3, i, self.width as int) {
                        let (cx, cy) = choose|cx: int, cy: int|
                            #[trigger] block_hits(b.0, b.1, b.2, b.3, cx, cy, i, self.width as int);
                    }
                }
            }
        }
    }

    /// Carves a door of `width` columns between two rooms lined up vertically.
    fn apply_vertical_door(&mut self, r1: &Rect, r2: &Rect, width: usize)
        requires
            old(self).wf(),
            door_fits(*r1, *r2, width as int, false),
        ensures
            final(self).wf(),
            final(self).width == old(self).width,
            final(self).height == old(self).height,
            final(self).revealed_tiles@ == old(self).revealed_tiles@,
            final(self).visible_tiles@ == old(self).visible_tiles@,
            final(self).rooms@ == old(self).rooms@,
            forall|i: int|
                0 <= i < final(self).tiles@.len() ==> #[trigger] final(self).tiles@[i] == if door_covers(
                    *r1,
                    *r2,
                    width as int,
                    false,
                    i,
                    old(self).width as int,
                ) {
                    TileType::Floor
                } else {
                    old(self).tiles@[i]
                },
    {
        let xs = door_lines(r1.x1, r1.x2, r2.x1, r2.x2, width);
        let yl = r1.y1.min(r2.y1) as i64 + 1;
        let yh = r1.y2.max(r2.y2) as i64 - 1;
        if xs.len() > 0 {
            let xl = xs[0] as i64;
            let xh = xs[xs.len() - 1] as i64;
            self.fill_floor(xl, xh, yl, yh);
        } else {
            proof {
                let b = door_block(*r1, *r2, width as int, false);
                assert forall|i: int| 0 <= i < self.tiles@.len() implies !door_covers(
                    *r1,
                    *r2,
                    width as int,
                    false,
                    i,
                    self.width as int,
                ) by {
                    if block_covers(b.0, b.1, b.2, b.3, i, self.width as int) {
                        let (cx, cy) = choose|cx: int, cy: int|
                            #[trigger] block_hits(b.0, b.1, b.2, b.3, cx, cy, i, self.width as int);
                    }
                }
            }
        }
    }

    /// Carves a door of `width` lines between the rooms `room1` and `room2`
    /// of `stage`: through shared rows when the rooms are lined up
    /// horizontally, through shared columns otherwise.
    pub fn add_door(&mut self, stage: &Stage, room1: &String, room2: &String, width: usize)
        requires
            old(self).wf(),
            stage.room_keys_unique(),
            stage.has_room(room1@),
            stage.has_room(room2@),
            door_fits(
                stage.room_outline(room1@),
                stage.room_outline(room2@),
                width as int,
                stage.room_outline(room1@).lined_horizontal(stage.room_outline(room2@)),
            ),
        ensures
            final(self).wf(),
            final(self).width == old(self).width,
            final(self).height == old(self).height,
            final(self).revealed_tiles@ == old(self).revealed_tiles@,
            final(self).visible_tiles@ == old(self).visible_tiles@,
            final(self).rooms@ == old(self).rooms@,
            forall|i: int|
                0 <= i < final(self).tiles@.len() ==> #[trigger] final(self).tiles@[i] == if door_covers(
                    stage.room_outline(room1@),
                    stage.room_outline(room2@),
                    width as int,
                    stage.room_outline(room1@).lined_horizontal(stage.room_outline(room2@)),
                    i,
                    old(self).width as int,
                ) {
                    TileType::Floor
                } else {
                    old(self).tiles@[i]
                },
    {
        let r1 = match stage.room(room1) {
            Some(r) => r,
            None => {
                return ;
            },
        };
        let r2 = match stage.room(room2) {
            Some(r) => r,
            None => {
                return ;
            },
        };
        if r1.dimensions.is_lined_horizontal(&r2.dimensions) {
            self.apply_horizontal_door(&r1.dimensions, &r2.dimensions, width);
        } else {
            self.apply_vertical_door(&r1.dimensions, &r2.dimensions, width);
        }
    }

    /// Lays out `stage` on a new 50 x 50 map: every cell of every room
    /// becomes floor and belongs to that room (a later room overriding an
    /// earlier one), then every door is carved. Nothing is revealed or visible yet.
    pub fn new_map(stage: &Stage) -> (map: TileMap)
        requires
            stage_fits(*stage),
        ensures
            map.wf(),
            map.width == MAPWIDTH,
            map.height == MAPHEIGHT,
            map.tiles@.len() == MAPCOUNT,
            forall|i: int| 0 <= i < MAPCOUNT ==> !#[trigger] map.revealed_tiles@[i],
            forall|i: int| 0 <= i < MAPCOUNT ==> !#[trigger] map.visible_tiles@[i],
            forall|i: int|
                0 <= i < MAPCOUNT ==> (#[trigger] map.tiles@[i] == TileType::Floor <==> stage_floor(
                    *stage,
                    i,
                )),
            forall|x: i32, y: i32|
                #[trigger] map.room_code(x, y) == last_room_code(stage.rooms@, x as int, y as int),
    {
        let mut map = TileMap {
            tiles: vec![TileType::Wall; MAPCOUNT],
            width: MAPWIDTH,
            height: MAPHEIGHT,
            revealed_tiles: vec![false; MAPCOUNT],
            visible_tiles: vec![false; MAPCOUNT],
            rooms: Vec::new(),
        };
        let ghost w = MAPWIDTH as int;
        assert(map.tiles@.len() == 50 * 50);
        let mut j: usize = 0;
        while j < stage.rooms.len()
            invariant
                stage_fits(*stage),
                w == MAPWIDTH,
                0 <= j <= stage.rooms@.len(),
                map.wf(),
                map.width == MAPWIDTH,
                map.height == MAPHEIGHT,
                map.tiles@.len() == MAPCOUNT,
                forall|i: int| 0 <= i < MAPCOUNT ==> !#[trigger] map.revealed_tiles@[i],
                forall|i: int| 0 <= i < MAPCOUNT ==> !#[trigger] map.visible_tiles@[i],
                forall|i: int|
                    0 <= i < MAPCOUNT ==> (#[trigger] map.tiles@[i] == TileType::Floor <==> exists|
                        jj: int,
                    |
                        0 <= jj < j && room_covers(#[trigger] stage.rooms@[jj].1.dimensions, i, w)),
                forall|x: i32, y: i32|
                    #[trigger] map.room_code(x, y) == last_room_code(
                        stage.rooms@.subrange(0, j as int),
                        x as int,
                        y as int,
                    ),
            decreases stage.rooms@.len() - j,
        {
            let ghost before = map.tiles@;
            assert(room_fits(stage.rooms@[j as int].1.dimensions, w, MAPCOUNT as int));
            map.apply_room_to_map(&stage.rooms[j].0, &stage.rooms[j].1.dimensions);
            proof {
                let r = stage.rooms@[j as int].1.dimensions;
                assert forall|i: int| 0 <= i < MAPCOUNT implies (#[trigger] map.tiles@[i]
                    == TileType::Floor <==> exists|jj: int|
                    0 <= jj < j + 1 && room_covers(#[trigger] stage.rooms@[jj].1.dimensions, i, w)) by {
                    if room_covers(r, i, w) {
                        assert(0 <= j < j + 1 && room_covers(stage.rooms@[j as int].1.dimensions, i, w));
                    } else if exists|jj: int|
                        0 <= jj < j + 1 && room_covers(#[trigger] stage.rooms@[jj].1.dimensions, i, w) {
                        let jj = choose|jj: int|
                            0 <= jj < j + 1 && room_covers(#[trigger] stage.rooms@[jj].1.dimensions, i, w);
                        assert(jj != j);
                    }
                }
                assert forall|x: i32, y: i32|
                    #[trigger] map.room_code(x, y) == last_room_code(
                        stage.rooms@.subrange(0, j + 1),
                        x as int,
                        y as int,
                    ) by {
                    assert(stage.rooms@.subrange(0, j + 1).drop_last() =~= stage.rooms@.subrange(
                        0,
                        j as int,
                    ));
                }
            }
            j = j + 1;
        }
        proof {
            assert(stage.rooms@.subrange(0, j as int) =~= stage.rooms@);
        }
        let mut k: usize = 0;
        while k < stage.doors.len()
            invariant
                stage_fits(*stage),
                w == MAPWIDTH,
                0 <= k <= stage.doors@.len(),
                map.wf(),
                map.width == MAPWIDTH,
                map.height == MAPHEIGHT,
                map.tiles@.len() == MAPCOUNT,
                forall|i: int| 0 <= i < MAPCOUNT ==> !#[trigger] map.revealed_tiles@[i],
                forall|i: int| 0 <= i < MAPCOUNT ==> !#[trigger] map.visible_tiles@[i],
                forall|i: int|
                    0 <= i < MAPCOUNT ==> (#[trigger] map.tiles@[i] == TileType::Floor <==> ((exists|
                        jj: int,
                    |
                        0 <= jj < stage.rooms@.len() && room_covers(
                            #[trigger] stage.rooms@[jj].1.dimensions,
                            i,
                            w,
                        )) || exists|kk: int|
                        0 <= kk < k && stage_door_covers(*stage, #[trigger] stage.doors@[kk], i, w))),
                forall|x: i32, y: i32|
                    #[trigger] map.room_code(x, y) == last_room_code(stage.rooms@, x as int, y as int),
            decreases stage.doors@.len() - k,
        {
            let d = &stage.doors[k];
            assert(stage.doors@[k as int] == *d);
            let ghost prev = map;
            map.add_door(stage, &d.room1, &d.room2, d.width);
            proof {
                assert forall|x: i32, y: i32|
                    #[trigger] map.room_code(x, y) == last_room_code(stage.rooms@, x as int, y as int) by {
                    assert(prev.room_code(x, y) == last_room_code(stage.rooms@, x as int, y as int));
                }
                assert forall|i: int| 0 <= i < MAPCOUNT implies (#[trigger] map.tiles@[i]
                    == TileType::Floor <==> ((exists|jj: int|
                    0 <= jj < stage.rooms@.len() && room_covers(
                        #[trigger] stage.rooms@[jj].1.dimensions,
                        i,
                        w,
                    )) || exists|kk: int|
                    0 <= kk < k + 1 && stage_door_covers(*stage, #[trigger] stage.doors@[kk], i, w))) by {
                    if stage_door_covers(*stage, *d, i, w) {
                        assert(0 <= k < k + 1 && stage_door_covers(*stage, stage.doors@[k as int], i, w));
                    } else if exists|kk: int|
                        0 <= kk < k + 1 && stage_door_covers(*stage, #[trigger] stage.doors@[kk], i, w) {
                        let kk = choose|kk: int|
                            0 <= kk < k + 1 && stage_door_covers(*stage, #[trigger] stage.doors@[kk], i, w);
                        assert(kk != k);
                    }
                }
            }
            k = k + 1;
        }
        map
    }


    /// Cell `(x, y)` lies on the map.
    pub open spec fn on_map(self, x: int, y: int) -> bool {
        0 <= x < self.width && 0 <= y < self.height
    }

    /// Tile `i` is one of the `cells` that lie on the map.
    pub open spec fn sees(self, cells: Seq<(i32, i32)>, i: int) -> bool {
        exists|k: int|
            0 <= k < cells.len() && self.on_map(cells[k].0 as int, cells[k].1 as int) && cell_index(
                cells[k].0 as int,
                cells[k].1 as int,
                self.width as int,
            ) == i
    }

    /// The player now sees exactly `cells` (those on the map): they become
    /// visible and stay revealed, every other tile stops being visible.
    pub fn show_visible(&mut self, cells: &Vec<(i32, i32)>)
        requires
            old(self).wf(),
        ensures
            final(self).wf(),
            final(self).tiles@ == old(self).tiles@,
            final(self).rooms@ == old(self).rooms@,
            final(self).width == old(self).width,
            final(self).height == old(self).height,
            forall|i: int|
                0 <= i < final(self).visible_tiles@.len() ==> #[trigger] final(self).visible_tiles@[i]
                    == old(self).sees(cells@, i),
            forall|i: int|
                0 <= i < final(self).revealed_tiles@.len() ==> #[trigger] final(self).revealed_tiles@[i]
                    == (old(self).revealed_tiles@[i] || old(self).sees(cells@, i)),
    {
        let ghost old_revealed = self.revealed_tiles@;
        let n = self.visible_tiles.len();
        let mut i: usize = 0;
        while i < n
            invariant
                self.wf(),
                n == self.visible_tiles@.len(),
                i <= n,
                self.tiles@ == old(self).tiles@,
                self.rooms@ == old(self).rooms@,
                self.width == old(self).width,
                self.height == old(self).height,
                self.revealed_tiles@ == old_revealed,
                forall|k: int| 0 <= k < i ==> !#[trigger] self.visible_tiles@[k],
            decreases n - i,
        {
            self.visible_tiles.set(i, false);
            i = i + 1;
        }
        let ghost w = self.width as int;
        let mut j: usize = 0;
        while j < cells.len()
            invariant
                self.wf(),
                n == self.visible_tiles@.len(),
                j <= cells@.len(),
                w == self.width,
                self.tiles@ == old(self).tiles@,
                self.rooms@ == old(self).rooms@,
                self.width == old(self).width,
                self.height == old(self).height,
                forall|k: int|
                    0 <= k < n ==> #[trigger] self.visible_tiles@[k] == old(self).sees(
                        cells@.subrange(0, j as int),
                        k,
                    ),
                forall|k: int|
                    0 <= k < n ==> #[trigger] self.revealed_tiles@[k] == (old_revealed[k] || old(
                        self,
                    ).sees(cells@.subrange(0, j as int), k)),
            decreases cells@.len() - j,
        {
            let (x, y) = cells[j];
            let ghost pre = cells@.subrange(0, j as int);
            let ghost post = cells@.subrange(0, j + 1);
            assert(post =~= pre.push((x, y)));
            if 0 <= x && x < self.width && 0 <= y && y < self.height {
                proof {
                    assert((y as int) * w + x < self.width * self.height) by (nonlinear_arith)
                        requires
                            0 <= x < self.width,
                            0 <= y < self.height,
                            w == self.width,
                    ;
                }
                let idx = self.xy_idx(x, y);
                self.visible_tiles.set(idx, true);
                self.revealed_tiles.set(idx, true);
                proof {
                    assert(post[j as int] == (x, y));
                    assert forall|k: int| 0 <= k < n implies #[trigger] self.visible_tiles@[k] == old(
                        self,
                    ).sees(post, k) && self.revealed_tiles@[k] == (old_revealed[k] || old(self).sees(
                        post,
                        k,
                    )) by {
                        if old(self).sees(pre, k) {
                            let m = choose|m: int|
                                0 <= m < pre.len() && old(self).on_map(pre[m].0 as int, pre[m].1 as int)
                                    && cell_index(pre[m].0 as int, pre[m].1 as int, w) == k;
                            assert(post[m] == pre[m]);
                        }
                        if old(self).sees(post, k) && k != idx {
                            let m = choose|m: int|
                                0 <= m < post.len() && old(self).on_map(post[m].0 as int, post[m].1 as int)
                                    && cell_index(post[m].0 as int, post[m].1 as int, w) == k;
                            assert(m != j);
                            assert(pre[m] == post[m]);
                        }
                    }
                }
            } else {
                proof {
                    assert forall|k: int| 0 <= k < n implies #[trigger] self.visible_tiles@[k] == old(
                        self,
                    ).sees(post, k) && self.revealed_tiles@[k] == (old_revealed[k] || old(self).sees(
                        post,
                        k,
                    )) by {
                        if old(self).sees(pre, k) {
                            let m = choose|m: int|
                                0 <= m < pre.len() && old(self).on_map(pre[m].0 as int, pre[m].1 as int)
                                    && cell_index(pre[m].0 as int, pre[m].1 as int, w) == k;
                            assert(post[m] == pre[m]);
                        }
                        if old(self).sees(post, k) {
                            let m = choose|m: int|
                                0 <= m < post.len() && old(self).on_map(post[m].0 as int, post[m].1 as int)
                                    && cell_index(post[m].0 as int, post[m].1 as int, w) == k;
                            assert(m != j);
                            assert(pre[m] == post[m]);
                        }
                    }
                }
            }
            j = j + 1;
        }
        assert(cells@.subrange(0, j as int) =~= cells@);
    }

    /// Cell `(x, y)` lies strictly inside the map's border.
    pub fn in_bounds(&self, x: i32, y: i32) -> (r: bool)
        requires
            self.width > i32::MIN,
            self.height > i32::MIN,
        ensures
            r == (0 < x < self.width - 1 && 0 < y < self.height - 1),
    {
        x > 0 && x < self.width - 1 && y > 0 && y < self.height - 1
    }

    /// The index of point `(x, y)`.
    pub fn point2d_to_index(&self, x: i32, y: i32) -> (r: i32)
        requires
            i32::MIN <= y * self.width <= i32::MAX,
            i32::MIN <= cell_index(x as int, y as int, self.width as int) <= i32::MAX,
        ensures
            r == cell_index(x as int, y as int, self.width as int),
    {
        (y * self.width) + x
    }

    /// The point with index `idx`: column `idx % width`, row `idx / width`.
    pub fn index_to_point2d(&self, idx: i32) -> (r: (i32, i32))
        requires
            self.width != 0,
            !(idx == i32::MIN && self.width == -1),
        ensures
            r.0 == trunc_rem(idx as int, self.width as int),
            r.1 == trunc_div(idx as int, self.width as int),
    {
        proof {
            let a = idx as int;
            let b = self.width as int;
            if a >= 0 {
                assert(-a <= a / b <= a) by (nonlinear_arith)
                    requires
                        a >= 0,
                        b != 0,
                ;
            } else {
                let x = -a;
                if b > 0 {
                    assert(0 <= x / b <= x) by (nonlinear_arith)
                        requires
                            x > 0,
                            b > 0,
                    ;
                } else if b == -1 {
                    assert(x / b == -x) by (nonlinear_arith)
                        requires
                            b == -1,
                    ;
                } else {
                    assert(-0x4000_0001 <= x / b <= 0) by (nonlinear_arith)
                        requires
                            0 < x <= 0x8000_0000,
                            b <= -2,
                    ;
                }
            }
        }
        (idx % self.width, idx / self.width)
    }

    /// Tile `idx` blocks sight: it is a wall.
    pub fn is_opaque(&self, idx: i32) -> (r: bool)
        requires
            0 <= idx < self.tiles@.len(),
        ensures
            r == (self.tiles@[idx as int] == TileType::Wall),
    {
        self.tiles[idx as usize] == TileType::Wall
    }

    /// Where a step by `(dx, dy)` from `(x, y)` leads: `None` into a wall,
    /// otherwise the destination, kept within the map.
    pub fn destination(&self, x: i32, y: i32, dx: i32, dy: i32) -> (r: Option<(i32, i32)>)
        requires
            i32::MIN <= x + dx <= i32::MAX,
            i32::MIN <= y + dy <= i32::MAX,
            0 <= x + dx,
            0 <= y + dy,
            0 < self.width,
            0 < self.height,
            cell_index(x + dx, y + dy, self.width as int) < self.tiles@.len(),
        ensures
            match r {
                None => self.tiles@[cell_index(x + dx, y + dy, self.width as int)] == TileType::Wall,
                Some(p) => {
                    &&& self.tiles@[cell_index(x + dx, y + dy, self.width as int)] != TileType::Wall
                    &&& p.0 == clamp(x + dx, 0, self.width - 1)
                    &&& p.1 == clamp(y + dy, 0, self.height - 1)
                },
            },
    {
        let n = self.tiles.len();
        let destination_idx = self.xy_idx(x + dx, y + dy);
        if self.tiles[destination_idx] != TileType::Wall {
            let nx = (self.width - 1).min(0.max(x + dx));
            let ny = (self.height - 1).min(0.max(y + dy));
            Some((nx, ny))
        } else {
            None
        }
    }

    /// The `k`-th visited tile, counting in increasing index order, given as
    /// (column, row).
    pub fn flee_cell(&self, visited: &Vec<bool>, k: usize) -> (r: (i32, i32))
        requires
            self.wf(),
            self.width > 0,
            visited@.len() == self.tiles@.len(),
            k < visited_indices(visited@).len(),
        ensures
            r.0 == visited_indices(visited@)[k as int] % (self.width as int),
            r.1 == visited_indices(visited@)[k as int] / (self.width as int),
    {
        let vs = visited_cells(visited);
        let idx = vs[k];
        assert(vs@[k as int] as int == visited_indices(visited@)[k as int]);
        let w = self.width as usize;
        proof {
            let h = self.height as int;
            assert((idx as int) / (w as int) < h) by (nonlinear_arith)
                requires
                    0 <= idx < (w as int) * h,
                    w > 0,
            ;
            assert((idx as int) % (w as int) < w);
        }
        ((idx % w) as i32, (idx / w) as i32)
    }

    /// Where a fleeing player lands: one of the visited tiles, drawn at
    /// random (see `flee_cell`), given as (column, row).
    pub fn flee_destination(&self, visited: &Vec<bool>) -> (r: (i32, i32))
        requires
            self.wf(),
            self.width > 0,
            visited@.len() == self.tiles@.len(),
            exists|i: int| 0 <= i < visited@.len() && visited@[i],
        ensures
            exists|k: int|
                0 <= k < visited_indices(visited@).len() && r.0 == visited_indices(visited@)[k] % (
                self.width as int) && r.1 == visited_indices(visited@)[k] / (self.width as int),
            exists|i: int|
                0 <= i < visited@.len() && visited@[i] && r.0 == i % (self.width as int) && r.1 == i
                    / (self.width as int),
    {
        let vs = visited_cells(visited);
        let ghost some = choose|i: int| 0 <= i < visited@.len() && visited@[i];
        assert(vs@.contains(some as usize));
        let k = roll_range(0, vs.len() as u64) as usize;
        let r = self.flee_cell(visited, k);
        assert(visited@[vs@[k as int] as int]);
        r
    }
}

/// Records that the player stepped on tile `idx`.
pub fn mark_visited(visited: &mut Vec<bool>, idx: usize)
    requires
        idx < old(visited)@.len(),
    ensures
        final(visited)@ == old(visited)@.update(idx as int, true),
{
    visited.set(idx, true);
}

/// The indices of the tiles marked in `visited`, in increasing order.
pub open spec fn visited_indices(visited: Seq<bool>) -> Seq<int>
    decreases visited.len(),
{
    if visited.len() == 0 {
        Seq::empty()
    } else if visited.last() {
        visited_indices(visited.drop_last()).push(visited.len() - 1)
    } else {
        visited_indices(visited.drop_last())
    }
}

/// The indices of the tiles marked in `visited`, in increasing order.
pub fn visited_cells(visited: &Vec<bool>) -> (r: Vec<usize>)
    ensures
        r@.len() == visited_indices(visited@).len(),
        forall|k: int| 0 <= k < r@.len() ==> #[trigger] r@[k] as int == visited_indices(visited@)[k],
        forall|k: int| 0 <= k < r@.len() ==> (r@[k] as int) < visited@.len() && visited@[#[trigger] r@[k] as int],
        forall|i: int| 0 <= i < visited@.len() && visited@[i] ==> r@.contains(i as usize),
        forall|k: int, l: int| 0 <= k < l < r@.len() ==> #[trigger] r@[k] < #[trigger] r@[l],
{
    let mut r: Vec<usize> = Vec::new();
    let mut i: usize = 0;
    while i < visited.len()
        invariant
            i <= visited@.len(),
            forall|k: int| 0 <= k < r@.len() ==> (r@[k] as int) < i && visited@[#[trigger] r@[k] as int],
            forall|j: int| 0 <= j < i && visited@[j] ==> r@.contains(j as usize),
            forall|k: int, l: int| 0 <= k < l < r@.len() ==> #[trigger] r@[k] < #[trigger] r@[l],
            r@.len() == visited_indices(visited@.subrange(0, i as int)).len(),
            forall|k: int|
                0 <= k < r@.len() ==> #[trigger] r@[k] as int == visited_indices(
                    visited@.subrange(0, i as int),
                )[k],
        decreases visited@.len() - i,
    {
        proof {
            let pre = visited@.subrange(0, i + 1);
            assert(pre.drop_last() =~= visited@.subrange(0, i as int));
            assert(pre.last() == visited@[i as int]);
        }
        if visited[i] {
            let ghost before = r@;
            r.push(i);
            assert forall|j: int| 0 <= j <= i && visited@[j] implies r@.contains(j as usize) by {
                if j < i {
                    let m = choose|m: int| 0 <= m < before.len() && before[m] == j as usize;
                    assert(r@[m] == j as usize);
                } else {
                    assert(r@[before.len() as int] == i);
                }
            }
        }
        i = i + 1;
    }
    assert(visited@.subrange(0, i as int) =~= visited@);
    r
}


/// Whether the outline `r` fits a grid of `w` columns and `len` tiles.
pub fn room_fits_grid(r: &Rect, w: i32, len: usize) -> (b: bool)
    ensures
        b == room_fits(*r, w as int, len as int),
{
    let cells_empty = r.x2 <= r.x1 || r.y2 <= r.y1;
    proof {
        assert(-0x8000_0000 * 0x8000_0000 <= (r.y2 as int) * (w as int) <= 0x8000_0000 * 0x8000_0000)
            by (nonlinear_arith)
            requires
                -0x8000_0000 <= r.y2 <= 0x8000_0000,
                -0x8000_0000 <= w <= 0x8000_0000,
        ;
    }
    let last: i128 = r.y2 as i128 * w as i128 + r.x2 as i128;
    r.y1 < i32::MAX && (r.y2 <= r.y1 || r.x1 < i32::MAX) && (cells_empty || (r.x1 >= -1 && r.y1
        >= -1 && last < len as i128))
}

/// The inclusive range of lines of a door (see `door_span`).
fn door_span_exec(a_lo: i32, a_hi: i32, b_lo: i32, b_hi: i32, width: usize) -> (r: (i128, i128))
    ensures
        r.0 == door_span(a_lo as int, a_hi as int, b_lo as int, b_hi as int, width as int).0,
        r.1 == door_span(a_lo as int, a_hi as int, b_lo as int, b_hi as int, width as int).1,
{
    let lo: i128 = if a_lo >= b_lo { a_lo as i128 } else { b_lo as i128 } + 1;
    let hi: i128 = if a_hi <= b_hi { a_hi as i128 } else { b_hi as i128 };
    let n = hi - lo + 1;
    if n > width as i128 {
        let k = n - width as i128;
        (lo + (k + 1) / 2, hi - k / 2)
    } else {
        (lo, hi)
    }
}

/// Whether a door of `width` lines between `r1` and `r2` fits (see `door_fits`).
pub fn door_fits_grid(r1: &Rect, r2: &Rect, width: usize, horizontal: bool) -> (b: bool)
    ensures
        b == door_fits(*r1, *r2, width as int, horizontal),
{
    let (xl, xh, yl, yh): (i128, i128, i128, i128) = if horizontal {
        let (lo, hi) = door_span_exec(r1.y1, r1.y2, r2.y1, r2.y2, width);
        (
            if r1.x1 <= r2.x1 { r1.x1 as i128 } else { r2.x1 as i128 } + 1,
            if r1.x2 >= r2.x2 { r1.x2 as i128 } else { r2.x2 as i128 } - 1,
            lo,
            hi,
        )
    } else {
        let (lo, hi) = door_span_exec(r1.x1, r1.x2, r2.x1, r2.x2, width);
        (
            lo,
            hi,
            if r1.y1 <= r2.y1 { r1.y1 as i128 } else { r2.y1 as i128 } + 1,
            if r1.y2 >= r2.y2 { r1.y2 as i128 } else { r2.y2 as i128 } - 1,
        )
    };
    let start_ok = if horizontal {
        r1.y1 < i32::MAX && (r1.x1 < i32::MAX || r2.x1 < i32::MAX)
    } else {
        r1.x1 < i32::MAX && (r1.y1 < i32::MAX || r2.y1 < i32::MAX)
    };
    start_ok && (!(xl <= xh && yl <= yh) || (0 <= xl && 0 <= yl))
}

/// Whether `stage` can be laid out on a new map (see `stage_fits`).
pub fn check_stage(stage: &Stage) -> (b: bool)
    ensures
        b == stage_fits(*stage),
{
    let n = stage.rooms.len();
    let mut i: usize = 0;
    while i < n
        invariant
            n == stage.rooms@.len(),
            i <= n,
            forall|a: int, c: int|
                0 <= a < c < n && a < i ==> #[trigger] stage.rooms@[a].0@ != #[trigger] stage.rooms@[c].0@,
            forall|j: int|
                0 <= j < i ==> room_fits(
                    #[trigger] stage.rooms@[j].1.dimensions,
                    MAPWIDTH as int,
                    MAPCOUNT as int,
                ),
        decreases n - i,
    {
        if !room_fits_grid(&stage.rooms[i].1.dimensions, MAPWIDTH, MAPCOUNT) {
            return false;
        }
        let mut j: usize = i + 1;
        while j < n
            invariant
                n == stage.rooms@.len(),
                i < n,
                i + 1 <= j <= n,
                forall|c: int| i < c < j ==> stage.rooms@[i as int].0@ != #[trigger] stage.rooms@[c].0@,
            decreases n - j,
        {
            if stage.rooms[i].0 == stage.rooms[j].0 {
                return false;
            }
            j = j + 1;
        }
        i = i + 1;
    }
    assert(stage.room_keys_unique());
    let m = stage.doors.len();
    let mut k: usize = 0;
    while k < m
        invariant
            m == stage.doors@.len(),
            k <= m,
            stage.room_keys_unique(),
            forall|j: int|
                0 <= j < stage.rooms@.len() ==> room_fits(
                    #[trigger] stage.rooms@[j].1.dimensions,
                    MAPWIDTH as int,
                    MAPCOUNT as int,
                ),
            forall|kk: int|
                0 <= kk < k ==> {
                    let d = #[trigger] stage.doors@[kk];
                    &&& stage.has_room(d.room1@)
                    &&& stage.has_room(d.room2@)
                    &&& door_fits(
                        stage.room_outline(d.room1@),
                        stage.room_outline(d.room2@),
                        d.width as int,
                        door_is_horizontal(*stage, d),
                    )
                },
        decreases m - k,
    {
        let d = &stage.doors[k];
        let r1 = match stage.room(&d.room1) {
            Some(r) => r,
            None => {
                return false;
            },
        };
        let r2 = match stage.room(&d.room2) {
            Some(r) => r,
            None => {
                return false;
            },
        };
        let horizontal = r1.dimensions.is_lined_horizontal(&r2.dimensions);
        if !door_fits_grid(&r1.dimensions, &r2.dimensions, d.width, horizontal) {
            return false;
        }
        k = k + 1;
    }
    true
}


/// A door passes through exactly `width` lines when the two rooms share at
/// least that many, through all shared lines otherwise, and never leaves the
/// shared lines; the lines cut away on either side differ by at most one.
pub proof fn lemma_door_span(a_lo: int, a_hi: int, b_lo: int, b_hi: int, width: int)
    requires
        width >= 0,
    ensures
        ({
            let lo = max_i(a_lo, b_lo) + 1;
            let hi = min_i(a_hi, b_hi);
            let (dl, dh) = door_span(a_lo, a_hi, b_lo, b_hi, width);
            &&& hi - lo + 1 >= width ==> dh - dl + 1 == width
            &&& hi - lo + 1 < width ==> dl == lo && dh == hi
            &&& lo <= dl
            &&& dh <= hi
            &&& hi - lo + 1 >= width ==> 0 <= (dl - lo) - (hi - dh) <= 1
        }),
{
}

/// A door carves the same cells whichever of its two rooms is named first.
pub proof fn lemma_door_symmetric(r1: Rect, r2: Rect, width: int, horizontal: bool, i: int, w: int)
    ensures
        door_covers(r1, r2, width, horizontal, i, w) == door_covers(r2, r1, width, horizontal, i, w),
{
    let b = door_block(r1, r2, width, horizontal);
    let c = door_block(r2, r1, width, horizontal);
    assert(b == c);
}

/// A horizontal door carves, on each of its rows, every cell strictly
/// between the outer left edge and the outer right edge of the two rooms;
/// its rows lie within the rows both rooms share. A vertical door likewise
/// carves, in each of its columns, every cell strictly between the outer top
/// and bottom edges.
pub proof fn lemma_door_reaches_outer_edges(r1: Rect, r2: Rect, width: int, x: int, y: int, w: int)
    requires
        width >= 0,
    ensures
        ({
            let (lo, hi) = door_span(r1.y1 as int, r1.y2 as int, r2.y1 as int, r2.y2 as int, width);
            lo <= y <= hi && (if r1.x1 <= r2.x1 { r1.x1 } else { r2.x1 }) < x < (if r1.x2 >= r2.x2 {
                r1.x2
            } else {
                r2.x2
            }) ==> door_covers(r1, r2, width, true, cell_index(x, y, w), w)
        }),
        ({
            let (lo, hi) = door_span(r1.x1 as int, r1.x2 as int, r2.x1 as int, r2.x2 as int, width);
            lo <= x <= hi && (if r1.y1 <= r2.y1 { r1.y1 } else { r2.y1 }) < y < (if r1.y2 >= r2.y2 {
                r1.y2
            } else {
                r2.y2
            }) ==> door_covers(r1, r2, width, false, cell_index(x, y, w), w)
        }),
        ({
            let (lo, hi) = door_span(r1.y1 as int, r1.y2 as int, r2.y1 as int, r2.y2 as int, width);
            r1.y1 < lo && r2.y1 < lo && hi <= r1.y2 && hi <= r2.y2
        }) || door_span(r1.y1 as int, r1.y2 as int, r2.y1 as int, r2.y2 as int, width).0 > door_span(
            r1.y1 as int,
            r1.y2 as int,
            r2.y1 as int,
            r2.y2 as int,
            width,
        ).1,
{
    let bh = door_block(r1, r2, width, true);
    let bv = door_block(r1, r2, width, false);
    assert(block_hits(bh.0, bh.1, bh.2, bh.3, x, y, cell_index(x, y, w), w) ==> block_covers(
        bh.0,
        bh.1,
        bh.2,
        bh.3,
        cell_index(x, y, w),
        w,
    ));
    assert(block_hits(bv.0, bv.1, bv.2, bv.3, x, y, cell_index(x, y, w), w) ==> block_covers(
        bv.0,
        bv.1,
        bv.2,
        bv.3,
        cell_index(x, y, w),
        w,
    ));
    lemma_door_span(r1.y1 as int, r1.y2 as int, r2.y1 as int, r2.y2 as int, width);
}

/// Every cell of every room of a stage is floor on the stage's new map.
pub proof fn lemma_room_cells_are_floor(stage: Stage, j: int, x: int, y: int)
    requires
        0 <= j < stage.rooms@.len(),
        in_room(stage.rooms@[j].1.dimensions, x, y),
    ensures
        stage_floor(stage, cell_index(x, y, MAPWIDTH as int)),
{
    assert(room_hits(stage.rooms@[j].1.dimensions, x, y, cell_index(x, y, MAPWIDTH as int), MAPWIDTH as int));
}

/// A cell that lies in some room of a stage belongs to a room that holds it:
/// the last such room of the stage.
pub proof fn lemma_room_cell_has_code(rooms: Seq<(String, Room)>, j: int, x: int, y: int)
    requires
        0 <= j < rooms.len(),
        in_room(rooms[j].1.dimensions, x, y),
    ensures
        last_room_code(rooms, x, y) is Some,
        exists|k: int|
            j <= k < rooms.len() && in_room(rooms[k].1.dimensions, x, y) && last_room_code(rooms, x, y)
                == Some(#[trigger] rooms[k].0@),
    decreases rooms.len(),
{
    let n = rooms.len();
    if in_room(rooms.last().1.dimensions, x, y) {
        assert(rooms.last() == rooms[n - 1]);
    } else {
        assert(j < n - 1);
        assert(rooms.drop_last()[j] == rooms[j]);
        lemma_room_cell_has_code(rooms.drop_last(), j, x, y);
        let k = choose|k: int|
            j <= k < n - 1 && in_room(rooms.drop_last()[k].1.dimensions, x, y) && last_room_code(
                rooms.drop_last(),
                x,
                y,
            ) == Some(#[trigger] rooms.drop_last()[k].0@);
        assert(rooms.drop_last()[k] == rooms[k]);
    }
}

} // verus!
