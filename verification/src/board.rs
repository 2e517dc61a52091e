//! The board model: a rectangular grid of tiles, the derived junction
//! topology, the rectangular box regions with their cached paint status, and
//! the painting engine whose side effects (segment fills, box completions,
//! mode triggers) are computed incrementally and kept coherent on every
//! mutation.

use vstd::prelude::*;
use vstd::string::StrSliceExecFns;

use crate::direction::Direction;
use crate::geometry::TilePoint;
use crate::geometry::WorldPoint;

verus! {

/// The tile a layout character stands for; `None` for a character outside
/// the layout alphabet. A space is a wall, `=` an unpainted path cell, `c`
/// an unpainted path cell marking a chase-triggering region, and `p` a cell
/// that starts painted.
pub open spec fn spec_tile_char(c: char) -> Option<Tile> {
    if c == ' ' {
        Some(Tile::Empty)
    } else if c == '=' {
        Some(Tile::Unpainted)
    } else if c == 'c' {
        Some(Tile::ChaseMarker)
    } else if c == 'p' {
        Some(Tile::Painted)
    } else {
        None
    }
}

/// Whether a list of layout rows describes a board: a non-degenerate
/// rectangle within the size cap, every character in the layout alphabet.
pub open spec fn spec_valid_layout(rows: Seq<Seq<char>>) -> bool {
    &&& 1 <= rows.len() <= MAX_BOARD_EDGE
    &&& 1 <= rows[0].len() <= MAX_BOARD_EDGE
    &&& forall|y: int| 0 <= y < rows.len() ==> (#[trigger] rows[y]).len() == rows[0].len()
    &&& forall|y: int, x: int|
        0 <= y < rows.len() && 0 <= x < rows[0].len() ==> spec_tile_char(#[trigger] rows[y][x]) is Some
}

/// Whether the sequence holds the value `v` at some position.
pub open spec fn spec_seq_has(s: Seq<u32>, v: int) -> bool {
    exists|i: int| 0 <= i < s.len() && s[i] == v
}

/// How pushing an element changes what a sequence holds.
pub proof fn lemma_seq_has_push(s: Seq<u32>, e: u32, v: int)
    ensures
        spec_seq_has(s.push(e), v) <==> (spec_seq_has(s, v) || e == v),
{
    if spec_seq_has(s, v) {
        let i = choose|i: int| 0 <= i < s.len() && s[i] == v;
        assert(s.push(e)[i] == v);
    }
    if e == v {
        assert(s.push(e)[s.len() as int] == v);
    }
    if spec_seq_has(s.push(e), v) {
        let i = choose|i: int| 0 <= i < s.push(e).len() && s.push(e)[i] == v;
        if i < s.len() {
            assert(s[i] == v);
        }
    }
}

/// The state of one board cell.
#[derive(Debug, Clone, Copy, PartialEq, Eq, Structural)]
pub enum Tile {
    /// A non-walkable cell; treated like a wall for collision.
    Empty,
    /// A walkable cell the player has not painted yet.
    Unpainted,
    /// A walkable, not-yet-painted cell that marks a chase-triggering region
    /// of the layout.
    ChaseMarker,
    /// A walkable cell the player has painted.
    Painted,
}

impl Tile {
    /// Whether a mover may stand on this cell.
    pub open spec fn spec_walkable(self) -> bool {
        !(self is Empty)
    }

    /// Whether this cell counts as painted.
    pub open spec fn spec_painted(self) -> bool {
        self is Painted
    }

    /// Whether painting this cell would change it.
    pub open spec fn spec_needs_paint(self) -> bool {
        self is Unpainted || self is ChaseMarker
    }

    /// Whether a mover may stand on this cell.
    pub fn walkable(&self) -> (r: bool)
        ensures
            r == self.spec_walkable(),
    {
        !matches!(self, Tile::Empty)
    }

    /// Whether this cell counts as painted.
    pub fn painted(&self) -> (r: bool)
        ensures
            r == self.spec_painted(),
    {
        matches!(self, Tile::Painted)
    }
}

/// The result of painting one cell: walkable cells become painted, walls are
/// left alone.
pub open spec fn spec_paint_tile(t: Tile) -> Tile {
    if t is Empty {
        Tile::Empty
    } else {
        Tile::Painted
    }
}

/// A rectangular region of the board whose boundary cells, when fully
/// painted, count toward scoring and possibly toward the chase-mode trigger.
#[derive(Debug, Clone, Copy, PartialEq, Eq, Structural)]
pub struct GridBox {
    /// The tile at the top-left corner of the region.
    pub top_left: TilePoint,
    /// The tile at the bottom-right corner of the region.
    pub bottom_right: TilePoint,
    /// Cached paint status: always equal to the conjunction of the paint
    /// status of every boundary tile of the rectangle.
    pub painted: bool,
    /// Whether completing this box counts toward the chase-mode trigger.
    pub triggers_chase: bool,
}

/// The side effects of one painting action, described as a value so scoring
/// and mode transitions can be composed from a single pure computation.
#[derive(Debug, Clone, PartialEq, Eq)]
pub struct BoardUpdate {
    /// Number of cells newly painted along a vertical traversal.
    pub vertical: i32,
    /// Number of cells newly painted along a horizontal traversal.
    pub horizontal: i32,
    /// Number of boxes that transitioned from unpainted to painted.
    pub num_boxes: i32,
    /// Whether this action newly satisfied the chase-mode trigger: a
    /// triggering box completed now, with every triggering box painted.
    pub triggers_chase: bool,
    /// The pair of junction indices between which painting happened.
    pub junctions: Option<(u32, u32)>,
}

impl BoardUpdate {
    /// Whether the update records no change at all.
    pub open spec fn spec_is_zero(self) -> bool {
        self.vertical == 0 && self.horizontal == 0 && self.num_boxes == 0
            && self.triggers_chase == false
    }
}

/// The board: the tile grid (row-major, `width * height` cells), the set of
/// junction indices, the subset of junctions that mark chase-triggering
/// regions, and the list of box regions with cached paint status.
#[derive(Debug, Clone, PartialEq, Eq)]
pub struct Board {
    /// Row-major tile grid: the cell at `(x, y)` is `tiles[y * width + x]`.
    pub tiles: Vec<Tile>,
    /// Grid width in tiles.
    pub width: u32,
    /// Grid height in tiles.
    pub height: u32,
    /// Tile indices (`y * width + x`) where a mover may change direction,
    /// strictly increasing.
    pub junctions: Vec<u32>,
    /// The junctions that mark chase-triggering regions, strictly increasing.
    pub chase_junctions: Vec<u32>,
    /// The box regions of the board.
    pub boxes: Vec<GridBox>,
}

/// Largest accepted board edge, in tiles.
pub const MAX_BOARD_EDGE: u32 = 256;

impl Board {
    /// Whether `(x, y)` lies on the grid.
    pub open spec fn spec_in_bounds(self, x: int, y: int) -> bool {
        0 <= x < self.width && 0 <= y < self.height
    }

    /// The tile at `(x, y)`.
    pub open spec fn spec_tile_at(self, x: int, y: int) -> Tile {
        self.tiles@[y * self.width + x]
    }

    /// Whether `(x, y)` is on the grid and walkable.
    pub open spec fn spec_walkable_at(self, x: int, y: int) -> bool {
        self.spec_in_bounds(x, y) && self.spec_tile_at(x, y).spec_walkable()
    }

    /// Whether `(x, y)` is on the grid and painted.
    pub open spec fn spec_painted_at(self, x: int, y: int) -> bool {
        self.spec_in_bounds(x, y) && self.spec_tile_at(x, y).spec_painted()
    }

    /// The row-major index of `(x, y)`.
    pub open spec fn spec_index_of(self, x: int, y: int) -> int {
        y * self.width + x
    }

    /// Whether the junction set contains index `j`.
    pub open spec fn spec_junctions_contain(self, j: int) -> bool {
        spec_seq_has(self.junctions@, j)
    }

    /// Whether the chase-junction set contains index `j`.
    pub open spec fn spec_chase_junctions_contain(self, j: int) -> bool {
        spec_seq_has(self.chase_junctions@, j)
    }

    /// The junction topology the grid itself induces: a walkable cell where a
    /// mover may change direction, i.e. any walkable cell that is not the
    /// interior of a straight corridor.
    pub open spec fn spec_is_junction_topology(self, x: int, y: int) -> bool {
        &&& self.spec_walkable_at(x, y)
        &&& !{
            let l = self.spec_walkable_at(x - 1, y);
            let r = self.spec_walkable_at(x + 1, y);
            let u = self.spec_walkable_at(x, y - 1);
            let d = self.spec_walkable_at(x, y + 1);
            (l && r && !u && !d) || (u && d && !l && !r)
        }
    }

    /// Whether one box's extent lies on the grid with a proper rectangle.
    pub open spec fn spec_box_extent_wf(self, b: GridBox) -> bool {
        &&& 0 <= b.top_left.tx < b.bottom_right.tx < self.width
        &&& 0 <= b.top_left.ty < b.bottom_right.ty < self.height
    }

    /// Whether `(x, y)` lies on the boundary of box `b`.
    pub open spec fn spec_on_box_boundary(b: GridBox, x: int, y: int) -> bool {
        &&& b.top_left.tx <= x <= b.bottom_right.tx
        &&& b.top_left.ty <= y <= b.bottom_right.ty
        &&& (x == b.top_left.tx || x == b.bottom_right.tx || y == b.top_left.ty || y == b.bottom_right.ty)
    }

    /// Whether every boundary tile of box `b` is painted: the logical value
    /// the cached `painted` flag must always equal.
    pub open spec fn spec_box_boundary_painted(self, b: GridBox) -> bool {
        forall|x: int, y: int|
            Self::spec_on_box_boundary(b, x, y) ==> self.spec_painted_at(x, y)
    }

    /// Whether every chase-triggering box is painted.
    pub open spec fn spec_all_triggers_painted(self) -> bool {
        forall|i: int|
            0 <= i < self.boxes@.len() && self.boxes@[i].triggers_chase
                ==> self.boxes@[i].painted
    }

    /// Well-formedness of the grid dimensions.
    pub open spec fn wf_dims(self) -> bool {
        &&& 1 <= self.width <= MAX_BOARD_EDGE
        &&& 1 <= self.height <= MAX_BOARD_EDGE
        &&& self.tiles@.len() == self.width * self.height
    }

    /// Well-formedness of the junction sets: strictly increasing, on the
    /// grid, and exactly the junction topology the grid induces.
    pub open spec fn wf_junctions(self) -> bool {
        &&& forall|i: int, k: int|
            0 <= i < k < self.junctions@.len() ==> self.junctions@[i] < self.junctions@[k]
        &&& forall|i: int|
            0 <= i < self.junctions@.len() ==> self.junctions@[i] < self.width * self.height
        &&& forall|x: int, y: int|
            self.spec_in_bounds(x, y)
                ==> (self.spec_junctions_contain(#[trigger] self.spec_index_of(x, y))
                    <==> self.spec_is_junction_topology(x, y))
        &&& forall|i: int, k: int|
            0 <= i < k < self.chase_junctions@.len()
                ==> self.chase_junctions@[i] < self.chase_junctions@[k]
        &&& forall|i: int|
            0 <= i < self.chase_junctions@.len()
                ==> self.spec_junctions_contain(self.chase_junctions@[i] as int)
    }

    /// Well-formedness of the boxes; in particular the box-cache coherence
    /// law: every cached `painted` flag equals the conjunction of the paint
    /// status of the box's boundary tiles.
    pub open spec fn wf_boxes(self) -> bool {
        &&& self.boxes@.len() <= 65536
        &&& forall|i: int|
            0 <= i < self.boxes@.len()
                ==> {
                    &&& self.spec_box_extent_wf(#[trigger] self.boxes@[i])
                    &&& self.boxes@[i].painted == self.spec_box_boundary_painted(self.boxes@[i])
                }
    }

    /// Well-formedness of the whole board.
    pub open spec fn wf(self) -> bool {
        self.wf_dims() && self.wf_junctions() && self.wf_boxes()
    }

    /// The tile at `(x, y)`.
    pub fn tile_at(&self, x: u32, y: u32) -> (t: Tile)
        requires
            self.wf_dims(),
            self.spec_in_bounds(x as int, y as int),
        ensures
            t == self.spec_tile_at(x as int, y as int),
    {
        proof {
            mul_bounds(y as int, self.width as int, self.height as int);
        }
        self.tiles[(y * self.width + x) as usize]
    }

    /// Whether `(x, y)` is on the grid and walkable; positions off the grid
    /// are reported non-walkable.
    pub fn walkable_at(&self, x: i32, y: i32) -> (r: bool)
        requires
            self.wf_dims(),
        ensures
            r == self.spec_walkable_at(x as int, y as int),
    {
        if x < 0 || y < 0 || x >= self.width as i32 || y >= self.height as i32 {
            return false;
        }
        let t = self.tile_at(x as u32, y as u32);
        t.walkable()
    }

    /// Whether `(x, y)` is on the grid and painted; positions off the grid
    /// are reported unpainted.
    pub fn painted_at(&self, x: i32, y: i32) -> (r: bool)
        requires
            self.wf_dims(),
        ensures
            r == self.spec_painted_at(x as int, y as int),
    {
        if x < 0 || y < 0 || x >= self.width as i32 || y >= self.height as i32 {
            return false;
        }
        let t = self.tile_at(x as u32, y as u32);
        t.painted()
    }

    /// Whether the tile is a junction, by membership in the junction set.
    pub fn is_junction(&self, t: &TilePoint) -> (r: bool)
        requires
            self.wf_dims(),
            self.junctions@.len() < usize::MAX,
        ensures
            r == (self.spec_in_bounds(t.tx as int, t.ty as int)
                && self.spec_junctions_contain(self.spec_index_of(t.tx as int, t.ty as int))),
    {
        if t.tx < 0 || t.ty < 0 || t.tx >= self.width as i32 || t.ty >= self.height as i32 {
            return false;
        }
        proof {
            mul_bounds(t.ty as int, self.width as int, self.height as int);
        }
        let idx: u32 = (t.ty as u32) * self.width + (t.tx as u32);
        let mut i: usize = 0;
        while i < self.junctions.len()
            invariant
                0 <= i <= self.junctions@.len(),
                forall|k: int| 0 <= k < i ==> self.junctions@[k] != idx,
                self.spec_in_bounds(t.tx as int, t.ty as int),
                idx == self.spec_index_of(t.tx as int, t.ty as int),
            decreases self.junctions@.len() - i,
        {
            if self.junctions[i] == idx {
                proof {
                    assert(0 <= i < self.junctions@.len() && self.junctions@[i as int] == idx);
                }
                return true;
            }
            i = i + 1;
        }
        false
    }

    /// Whether junction index `j` is in the chase-junction set.
    pub fn is_chase_junction(&self, j: u32) -> (r: bool)
        ensures
            r == self.spec_chase_junctions_contain(j as int),
    {
        let mut i: usize = 0;
        while i < self.chase_junctions.len()
            invariant
                0 <= i <= self.chase_junctions@.len(),
                forall|k: int| 0 <= k < i ==> self.chase_junctions@[k] != j,
            decreases self.chase_junctions@.len() - i,
        {
            if self.chase_junctions[i] == j {
                return true;
            }
            i = i + 1;
        }
        false
    }

    /// The directions whose adjacent tile is walkable: the options a mover
    /// has when it stands on `t`.
    pub fn legal_directions(&self, t: &TilePoint) -> (dirs: Vec<Direction>)
        requires
            self.wf_dims(),
            self.spec_in_bounds(t.tx as int, t.ty as int),
        ensures
            dirs@.len() <= 4,
            forall|i: int|
                0 <= i < dirs@.len()
                    ==> self.spec_walkable_at(
                        t.tx + (#[trigger] dirs@[i]).spec_dx(),
                        t.ty + dirs@[i].spec_dy(),
                    ),
            forall|i: int, k: int| 0 <= i < k < dirs@.len() ==> dirs@[i] != dirs@[k],
            self.spec_walkable_at(t.tx as int, t.ty - 1) ==> dirs@.contains(Direction::Up),
            self.spec_walkable_at(t.tx as int, t.ty + 1) ==> dirs@.contains(Direction::Down),
            self.spec_walkable_at(t.tx - 1, t.ty as int) ==> dirs@.contains(Direction::Left),
            self.spec_walkable_at(t.tx + 1, t.ty as int) ==> dirs@.contains(Direction::Right),
    {
        let mut dirs: Vec<Direction> = Vec::new();
        if self.walkable_at(t.tx, t.ty - 1) {
            dirs.push(Direction::Up);
        }
        if self.walkable_at(t.tx, t.ty + 1) {
            dirs.push(Direction::Down);
        }
        if self.walkable_at(t.tx - 1, t.ty) {
            dirs.push(Direction::Left);
        }
        if self.walkable_at(t.tx + 1, t.ty) {
            dirs.push(Direction::Right);
        }
        proof {
            let u = self.spec_walkable_at(t.tx as int, t.ty - 1);
            let d = self.spec_walkable_at(t.tx as int, t.ty + 1);
            let l = self.spec_walkable_at(t.tx - 1, t.ty as int);
            let iu: int = if u { 1 } else { 0 };
            let id: int = if d { 1 } else { 0 };
            let il: int = if l { 1 } else { 0 };
            if u {
                assert(dirs@[0] == Direction::Up);
            }
            if d {
                assert(dirs@[iu] == Direction::Down);
            }
            if l {
                assert(dirs@[iu + id] == Direction::Left);
            }
            if self.spec_walkable_at(t.tx + 1, t.ty as int) {
                assert(dirs@[iu + id + il] == Direction::Right);
            }
        }
        dirs
    }
}

/// The smaller of two integers.
pub open spec fn spec_min(a: int, b: int) -> int {
    if a <= b {
        a
    } else {
        b
    }
}

/// The larger of two integers.
pub open spec fn spec_max(a: int, b: int) -> int {
    if a <= b {
        b
    } else {
        a
    }
}

/// Whether `(x, y)` lies on the axis-aligned segment of tiles between the
/// colinear pair `a`, `b` (both endpoints included).
pub open spec fn spec_on_segment(a: TilePoint, b: TilePoint, x: int, y: int) -> bool {
    if a.tx == b.tx {
        x == a.tx && spec_min(a.ty as int, b.ty as int) <= y <= spec_max(a.ty as int, b.ty as int)
    } else {
        y == a.ty && spec_min(a.tx as int, b.tx as int) <= x <= spec_max(a.tx as int, b.tx as int)
    }
}

/// The position of `(x, y)` along the segment, counted from the low end.
pub open spec fn spec_seg_pos(a: TilePoint, b: TilePoint, x: int, y: int) -> int {
    if a.tx == b.tx {
        y - spec_min(a.ty as int, b.ty as int)
    } else {
        x - spec_min(a.tx as int, b.tx as int)
    }
}

/// The number of tiles on the segment.
pub open spec fn spec_seg_len(a: TilePoint, b: TilePoint) -> int {
    if a.tx == b.tx {
        spec_max(a.ty as int, b.ty as int) - spec_min(a.ty as int, b.ty as int) + 1
    } else {
        spec_max(a.tx as int, b.tx as int) - spec_min(a.tx as int, b.tx as int) + 1
    }
}

/// The `x` coordinate of the `k`-th tile of the segment.
pub open spec fn spec_seg_x(a: TilePoint, b: TilePoint, k: int) -> int {
    if a.tx == b.tx {
        a.tx as int
    } else {
        spec_min(a.tx as int, b.tx as int) + k
    }
}

/// The `y` coordinate of the `k`-th tile of the segment.
pub open spec fn spec_seg_y(a: TilePoint, b: TilePoint, k: int) -> int {
    if a.tx == b.tx {
        spec_min(a.ty as int, b.ty as int) + k
    } else {
        a.ty as int
    }
}

/// Whether `(x, y)` is among the first `k` tiles of the segment.
pub open spec fn spec_on_segment_upto(a: TilePoint, b: TilePoint, x: int, y: int, k: int) -> bool {
    spec_on_segment(a, b, x, y) && spec_seg_pos(a, b, x, y) < k
}

/// How many of the first `k` tiles of the segment would change when painted
/// on board `bd`: the count of newly painted cells.
pub open spec fn spec_count_new(bd: Board, a: TilePoint, b: TilePoint, k: int) -> int
    decreases k,
{
    if k <= 0 {
        0
    } else {
        spec_count_new(bd, a, b, k - 1) + if bd.spec_tile_at(
            spec_seg_x(a, b, k - 1),
            spec_seg_y(a, b, k - 1),
        ).spec_needs_paint() {
            1int
        } else {
            0int
        }
    }
}

/// How many of the first `k` boxes of `ob` transition from unpainted to
/// painted when their boundary is re-read on board `nb`.
pub open spec fn spec_completed_count(ob: Seq<GridBox>, nb: Board, k: int) -> int
    decreases k,
{
    if k <= 0 {
        0
    } else {
        spec_completed_count(ob, nb, k - 1) + if !ob[k - 1].painted && nb.spec_box_boundary_painted(
            ob[k - 1],
        ) {
            1int
        } else {
            0int
        }
    }
}

/// Whether any of the first `k` boxes of `ob` is chase-triggering and
/// transitions from unpainted to painted on board `nb`.
pub open spec fn spec_any_new_trigger(ob: Seq<GridBox>, nb: Board, k: int) -> bool
    decreases k,
{
    if k <= 0 {
        false
    } else {
        spec_any_new_trigger(ob, nb, k - 1) || (ob[k - 1].triggers_chase && !ob[k - 1].painted
            && nb.spec_box_boundary_painted(ob[k - 1]))
    }
}

/// The corridor walk behind `next_junction_in_direction`: step from cell to
/// cell along the unit offset `(dx, dy)` until the first junction; a wall
/// ends the walk with `None`. The fuel bounds the recursion; any fuel at
/// least the room to the board edge gives the same answer.
pub open spec fn spec_next_junction_walk(
    bd: Board,
    cx: int,
    cy: int,
    dx: int,
    dy: int,
    fuel: nat,
) -> Option<TilePoint>
    decreases fuel,
{
    if !bd.spec_walkable_at(cx, cy) {
        None
    } else if bd.spec_junctions_contain(bd.spec_index_of(cx, cy)) {
        Some(TilePoint { tx: cx as i32, ty: cy as i32 })
    } else if fuel == 0 {
        None
    } else {
        spec_next_junction_walk(bd, cx + dx, cy + dy, dx, dy, (fuel - 1) as nat)
    }
}

/// How many cells the walk can still visit before leaving the grid.
pub open spec fn spec_walk_room(bd: Board, cx: int, cy: int, dx: int, dy: int) -> nat {
    if dy < 0 {
        (cy + 1) as nat
    } else if dy > 0 {
        if cy <= bd.height { (bd.height - cy) as nat } else { 0 }
    } else if dx < 0 {
        (cx + 1) as nat
    } else {
        if cx <= bd.width { (bd.width - cx) as nat } else { 0 }
    }
}

/// The walk's answer does not depend on the fuel, once the fuel covers the
/// room to the board edge.
pub proof fn lemma_walk_fuel(bd: Board, cx: int, cy: int, dx: int, dy: int, f1: nat, f2: nat)
    requires
        bd.wf_dims(),
        (dx == 0 && (dy == 1 || dy == -1)) || (dy == 0 && (dx == 1 || dx == -1)),
        f1 >= spec_walk_room(bd, cx, cy, dx, dy),
        f2 >= spec_walk_room(bd, cx, cy, dx, dy),
        cy >= -1,
        cx >= -1,
    ensures
        spec_next_junction_walk(bd, cx, cy, dx, dy, f1) == spec_next_junction_walk(
            bd,
            cx,
            cy,
            dx,
            dy,
            f2,
        ),
    decreases f1 + f2,
{
    if bd.spec_walkable_at(cx, cy) && !bd.spec_junctions_contain(bd.spec_index_of(cx, cy)) {
        assert(spec_walk_room(bd, cx, cy, dx, dy) >= 1);
        lemma_walk_fuel(bd, cx + dx, cy + dy, dx, dy, (f1 - 1) as nat, (f2 - 1) as nat);
    }
}

/// The first junction a mover leaving `from` in direction `d` reaches.
pub open spec fn spec_next_junction(bd: Board, from: TilePoint, d: Direction) -> Option<TilePoint> {
    spec_next_junction_walk(
        bd,
        from.tx + d.spec_dx(),
        from.ty + d.spec_dy(),
        d.spec_dx(),
        d.spec_dy(),
        256,
    )
}

/// The tile of a row-major index.
pub open spec fn spec_tile_of_index(bd: Board, idx: u32) -> TilePoint {
    TilePoint { tx: (idx as int % bd.width as int) as i32, ty: (idx as int / bd.width as int) as i32 }
}

/// The chase junctions a grid induces: the junctions, in order, whose tile
/// is a chase marker.
pub open spec fn spec_derive_chase(tiles: Seq<Tile>, js: Seq<u32>, i: int) -> Seq<u32>
    decreases js.len() - i,
{
    if i < 0 || i >= js.len() {
        Seq::empty()
    } else {
        let rest = spec_derive_chase(tiles, js, i + 1);
        if tiles[js[i] as int] is ChaseMarker {
            seq![js[i]] + rest
        } else {
            rest
        }
    }
}

/// The box the `i`-th junction anchors, when its four corners connect: the
/// rectangle to the next junction rightward and the next junction downward,
/// with the cached paint flag read from the grid and the chase flag set when
/// any corner tile is a chase marker.
pub open spec fn spec_box_at_junction(bd: Board, i: int) -> Option<GridBox> {
    let t = spec_tile_of_index(bd, bd.junctions@[i]);
    match (spec_next_junction(bd, t, Direction::Right), spec_next_junction(bd, t, Direction::Down)) {
        (Option::Some(t2), Option::Some(t3)) => match (
            spec_next_junction(bd, t2, Direction::Down),
            spec_next_junction(bd, t3, Direction::Right),
        ) {
            (Option::Some(c1), Option::Some(c2)) => if c1.ty == t3.ty && c2.tx == t2.tx {
                let corner = TilePoint { tx: t2.tx, ty: t3.ty };
                let trig = bd.spec_tile_at(t.tx as int, t.ty as int) is ChaseMarker
                    || bd.spec_tile_at(t2.tx as int, t2.ty as int) is ChaseMarker
                    || bd.spec_tile_at(t3.tx as int, t3.ty as int) is ChaseMarker
                    || bd.spec_tile_at(corner.tx as int, corner.ty as int) is ChaseMarker;
                let gb0 = GridBox {
                    top_left: t,
                    bottom_right: corner,
                    painted: false,
                    triggers_chase: trig,
                };
                Some(GridBox { painted: bd.spec_box_boundary_painted(gb0), ..gb0 })
            } else {
                None
            },
            _ => None,
        },
        _ => None,
    }
}

/// The boxes a grid induces, one try per junction from index `i` on.
pub open spec fn spec_derive_boxes(bd: Board, i: int) -> Seq<GridBox>
    decreases bd.junctions@.len() - i,
{
    if i < 0 || i >= bd.junctions@.len() {
        Seq::empty()
    } else {
        let rest = spec_derive_boxes(bd, i + 1);
        match spec_box_at_junction(bd, i) {
            Option::Some(gb) => seq![gb] + rest,
            Option::None => rest,
        }
    }
}

/// Everything a freshly built board owes to its layout rows: sound, the
/// grid mapped cell for cell from the layout characters, and the junction,
/// chase-junction and box structures exactly the ones the grid induces.
pub open spec fn spec_board_from_layout(rows: Seq<Seq<char>>, bd: Board) -> bool {
    &&& bd.wf()
    &&& bd.height == rows.len()
    &&& bd.width == rows[0].len()
    &&& forall|x: int, y: int|
        bd.spec_in_bounds(x, y) ==> Some(#[trigger] bd.spec_tile_at(x, y)) == spec_tile_char(
            rows[y][x],
        )
    &&& bd.chase_junctions@ == spec_derive_chase(bd.tiles@, bd.junctions@, 0)
    &&& bd.boxes@ == spec_derive_boxes(bd, 0)
}

/// The corridor walk reads only the grid and the junction list.
pub proof fn lemma_walk_congr(b1: Board, b2: Board, cx: int, cy: int, dx: int, dy: int, fuel: nat)
    requires
        b1.tiles@ == b2.tiles@,
        b1.width == b2.width,
        b1.height == b2.height,
        b1.junctions@ == b2.junctions@,
    ensures
        spec_next_junction_walk(b1, cx, cy, dx, dy, fuel) == spec_next_junction_walk(
            b2,
            cx,
            cy,
            dx,
            dy,
            fuel,
        ),
    decreases fuel,
{
    assert(b1.spec_walkable_at(cx, cy) == b2.spec_walkable_at(cx, cy));
    if b1.spec_walkable_at(cx, cy) && !b1.spec_junctions_contain(b1.spec_index_of(cx, cy))
        && fuel > 0 {
        lemma_walk_congr(b1, b2, cx + dx, cy + dy, dx, dy, (fuel - 1) as nat);
    }
}

/// The box a junction anchors reads only the grid and the junction list.
pub proof fn lemma_box_at_congr(b1: Board, b2: Board, i: int)
    requires
        b1.tiles@ == b2.tiles@,
        b1.width == b2.width,
        b1.height == b2.height,
        b1.junctions@ == b2.junctions@,
    ensures
        spec_box_at_junction(b1, i) == spec_box_at_junction(b2, i),
{
    let t = spec_tile_of_index(b1, b1.junctions@[i]);
    lemma_walk_congr(b1, b2, t.tx + 1, t.ty as int, 1, 0, 256);
    lemma_walk_congr(b1, b2, t.tx as int, t.ty + 1, 0, 1, 256);
    match (spec_next_junction(b1, t, Direction::Right), spec_next_junction(b1, t, Direction::Down)) {
        (Option::Some(t2), Option::Some(t3)) => {
            lemma_walk_congr(b1, b2, t2.tx as int, t2.ty + 1, 0, 1, 256);
            lemma_walk_congr(b1, b2, t3.tx + 1, t3.ty as int, 1, 0, 256);
            match (
                spec_next_junction(b1, t2, Direction::Down),
                spec_next_junction(b1, t3, Direction::Right),
            ) {
                (Option::Some(c1), Option::Some(c2)) => {
                    if c1.ty == t3.ty && c2.tx == t2.tx {
                        let corner = TilePoint { tx: t2.tx, ty: t3.ty };
                        let trig = b1.spec_tile_at(t.tx as int, t.ty as int) is ChaseMarker
                            || b1.spec_tile_at(t2.tx as int, t2.ty as int) is ChaseMarker
                            || b1.spec_tile_at(t3.tx as int, t3.ty as int) is ChaseMarker
                            || b1.spec_tile_at(corner.tx as int, corner.ty as int) is ChaseMarker;
                        let gb0 = GridBox {
                            top_left: t,
                            bottom_right: corner,
                            painted: false,
                            triggers_chase: trig,
                        };
                        lemma_boundary_painted_congr(b1, b2, gb0, gb0);
                    }
                },
                _ => {},
            }
        },
        _ => {},
    }
}

/// The induced box list reads only the grid and the junction list.
pub proof fn lemma_derive_boxes_congr(b1: Board, b2: Board, i: int)
    requires
        b1.tiles@ == b2.tiles@,
        b1.width == b2.width,
        b1.height == b2.height,
        b1.junctions@ == b2.junctions@,
    ensures
        spec_derive_boxes(b1, i) == spec_derive_boxes(b2, i),
    decreases b1.junctions@.len() - i,
{
    if 0 <= i < b1.junctions@.len() {
        lemma_box_at_congr(b1, b2, i);
        lemma_derive_boxes_congr(b1, b2, i + 1);
    }
}

/// What painting the segment between `a` and `b` does to a board's state:
/// the full relation between the board before (`pre`) and after (`post`) one
/// painting action. Every walkable segment tile becomes painted and every
/// box's cached flag is recomputed from the new grid; nothing else moves.
pub open spec fn spec_paint_effect(pre: Board, post: Board, a: TilePoint, b: TilePoint) -> bool {
    &&& post.width == pre.width
    &&& post.height == pre.height
    &&& post.junctions == pre.junctions
    &&& post.chase_junctions == pre.chase_junctions
    &&& post.tiles@.len() == pre.tiles@.len()
    &&& forall|x: int, y: int|
        pre.spec_in_bounds(x, y)
            ==> post.spec_tile_at(x, y) == (if spec_on_segment(a, b, x, y) {
                spec_paint_tile(pre.spec_tile_at(x, y))
            } else {
                pre.spec_tile_at(x, y)
            })
    &&& post.boxes@.len() == pre.boxes@.len()
    &&& forall|i: int|
        0 <= i < pre.boxes@.len()
            ==> post.boxes@[i] == (GridBox {
                top_left: pre.boxes@[i].top_left,
                bottom_right: pre.boxes@[i].bottom_right,
                painted: post.spec_box_boundary_painted(#[trigger] pre.boxes@[i]),
                triggers_chase: pre.boxes@[i].triggers_chase,
            })
}

/// What the `BoardUpdate` of one painting action reports, as a function of
/// the board before (`pre`) and after (`post`) the action.
pub open spec fn spec_update_reported(
    pre: Board,
    post: Board,
    a: TilePoint,
    b: TilePoint,
    u: BoardUpdate,
) -> bool {
    &&& u.vertical == (if a.tx == b.tx {
        spec_count_new(pre, a, b, spec_seg_len(a, b))
    } else {
        0
    })
    &&& u.horizontal == (if a.tx == b.tx {
        0
    } else {
        spec_count_new(pre, a, b, spec_seg_len(a, b))
    })
    &&& u.num_boxes == spec_completed_count(pre.boxes@, post, pre.boxes@.len() as int)
    &&& u.triggers_chase == (spec_any_new_trigger(pre.boxes@, post, pre.boxes@.len() as int)
        && post.spec_all_triggers_painted())
    &&& u.junctions == Some((
        pre.spec_index_of(a.tx as int, a.ty as int) as u32,
        pre.spec_index_of(b.tx as int, b.ty as int) as u32,
    ))
}

/// For `0 <= y < h` and `w >= 1`, the row-major index of a cell in row `y`
/// stays below `w * h`.
pub proof fn mul_bounds(y: int, w: int, h: int) by (nonlinear_arith)
    requires
        0 <= y < h,
        1 <= w <= MAX_BOARD_EDGE,
        h <= MAX_BOARD_EDGE,
    ensures
        y * w + w <= h * w,
        y * w == w * y,
        h * w == w * h,
        0 <= y * w,
        h * w <= 65536,
{
}

/// Row-major addressing is injective: two in-bounds cells share an index
/// only when they are the same cell.
pub proof fn lemma_rm_inj(w: int, x1: int, y1: int, x2: int, y2: int) by (nonlinear_arith)
    requires
        1 <= w,
        0 <= x1 < w,
        0 <= x2 < w,
        0 <= y1,
        0 <= y2,
    ensures
        (y1 * w + x1 == y2 * w + x2) <==> (x1 == x2 && y1 == y2),
{
}

/// Whether a box's boundary is fully painted depends only on the grid and on
/// the box's extent, not on the boards' box lists or the box's flags.
pub proof fn lemma_boundary_painted_congr(b1: Board, b2: Board, bx1: GridBox, bx2: GridBox)
    requires
        b1.tiles@ == b2.tiles@,
        b1.width == b2.width,
        b1.height == b2.height,
        bx1.top_left == bx2.top_left,
        bx1.bottom_right == bx2.bottom_right,
    ensures
        b1.spec_box_boundary_painted(bx1) == b2.spec_box_boundary_painted(bx2),
{
    if b1.spec_box_boundary_painted(bx1) {
        assert forall|x: int, y: int| Board::spec_on_box_boundary(bx2, x, y) implies b2.spec_painted_at(x, y) by {
            assert(Board::spec_on_box_boundary(bx1, x, y));
            assert(b1.spec_painted_at(x, y));
        }
    }
    if b2.spec_box_boundary_painted(bx2) {
        assert forall|x: int, y: int| Board::spec_on_box_boundary(bx1, x, y) implies b1.spec_painted_at(x, y) by {
            assert(Board::spec_on_box_boundary(bx2, x, y));
            assert(b2.spec_painted_at(x, y));
        }
    }
}

/// The completed-box count depends only on the grid, not on the new board's
/// own box list.
pub proof fn lemma_completed_count_congr(ob: Seq<GridBox>, b1: Board, b2: Board, k: int)
    requires
        b1.tiles@ == b2.tiles@,
        b1.width == b2.width,
        b1.height == b2.height,
    ensures
        spec_completed_count(ob, b1, k) == spec_completed_count(ob, b2, k),
        spec_any_new_trigger(ob, b1, k) == spec_any_new_trigger(ob, b2, k),
    decreases k,
{
    if k > 0 {
        lemma_completed_count_congr(ob, b1, b2, k - 1);
        lemma_boundary_painted_congr(b1, b2, ob[k - 1], ob[k - 1]);
    }
}

/// Check that a word list is strictly increasing with values below `bound`.
fn check_sorted_bounded(s: &Vec<u32>, bound: u32) -> (r: bool)
    ensures
        r == ((forall|a: int, b: int| 0 <= a < b < s@.len() ==> s@[a] < s@[b]) && (forall|a: int|
            0 <= a < s@.len() ==> s@[a] < bound)),
{
    let mut i: usize = 0;
    while i < s.len()
        invariant
            0 <= i <= s@.len(),
            forall|a: int| 0 <= a < i ==> s@[a] < bound,
            forall|a: int| 0 < a < i ==> s@[a - 1] < #[trigger] s@[a],
        decreases s@.len() - i,
    {
        if s[i] >= bound {
            return false;
        }
        if i > 0 && s[i - 1] >= s[i] {
            return false;
        }
        i = i + 1;
    }
    proof {
        if s@.len() > 0 {
            assert forall|a: int, b: int| 0 <= a < b < s@.len() implies s@[a] < s@[b] by {
                lemma_adjacent_sorted(s@, a, b);
            }
        }
    }
    true
}

/// Adjacent increase implies pairwise increase.
proof fn lemma_adjacent_sorted(s: Seq<u32>, a: int, b: int)
    requires
        forall|k: int| 0 < k < s.len() ==> s[k - 1] < #[trigger] s[k],
        0 <= a < b < s.len(),
    ensures
        s[a] < s[b],
    decreases b - a,
{
    if a + 1 < b {
        lemma_adjacent_sorted(s, a + 1, b);
    }
}

/// A board's well-formedness depends only on its mathematical content.
pub proof fn lemma_board_wf_congr(b1: Board, b2: Board)
    requires
        b1.tiles@ == b2.tiles@,
        b1.width == b2.width,
        b1.height == b2.height,
        b1.junctions@ == b2.junctions@,
        b1.chase_junctions@ == b2.chase_junctions@,
        b1.boxes@ == b2.boxes@,
    ensures
        b1.wf() == b2.wf(),
{
    assert forall|x: int, y: int|
        b1.spec_walkable_at(x, y) == b2.spec_walkable_at(x, y) by {}
    assert forall|x: int, y: int|
        b1.spec_is_junction_topology(x, y) == b2.spec_is_junction_topology(x, y) by {}
    if b1.wf() {
        assert(b2.wf_junctions()) by {
            assert forall|x: int, y: int| b2.spec_in_bounds(x, y) implies
                (b2.spec_junctions_contain(#[trigger] b2.spec_index_of(x, y))
                    <==> b2.spec_is_junction_topology(x, y)) by {
                assert(b1.spec_junctions_contain(b1.spec_index_of(x, y))
                    <==> b1.spec_is_junction_topology(x, y));
            }
        }
        assert(b2.wf_boxes()) by {
            assert forall|i: int| 0 <= i < b2.boxes@.len() implies {
                &&& b2.spec_box_extent_wf(#[trigger] b2.boxes@[i])
                &&& b2.boxes@[i].painted == b2.spec_box_boundary_painted(b2.boxes@[i])
            } by {
                assert(b1.spec_box_extent_wf(b1.boxes@[i]));
                assert(b1.boxes@[i].painted == b1.spec_box_boundary_painted(b1.boxes@[i]));
                lemma_boundary_painted_congr(b1, b2, b1.boxes@[i], b2.boxes@[i]);
            }
        }
    }
    if b2.wf() {
        assert(b1.wf_junctions()) by {
            assert forall|x: int, y: int| b1.spec_in_bounds(x, y) implies
                (b1.spec_junctions_contain(#[trigger] b1.spec_index_of(x, y))
                    <==> b1.spec_is_junction_topology(x, y)) by {
                assert(b2.spec_junctions_contain(b2.spec_index_of(x, y))
                    <==> b2.spec_is_junction_topology(x, y));
            }
        }
        assert(b1.wf_boxes()) by {
            assert forall|i: int| 0 <= i < b1.boxes@.len() implies {
                &&& b1.spec_box_extent_wf(#[trigger] b1.boxes@[i])
                &&& b1.boxes@[i].painted == b1.spec_box_boundary_painted(b1.boxes@[i])
            } by {
                assert(b2.spec_box_extent_wf(b2.boxes@[i]));
                assert(b2.boxes@[i].painted == b2.spec_box_boundary_painted(b2.boxes@[i]));
                lemma_boundary_painted_congr(b1, b2, b1.boxes@[i], b2.boxes@[i]);
            }
        }
    }
}

/// In a strictly increasing sequence the `i`-th element is at least `i`.
pub proof fn lemma_sorted_at_least(s: Seq<u32>, i: int)
    requires
        forall|p: int, q: int| 0 <= p < q < s.len() ==> s[p] < s[q],
        0 <= i < s.len(),
    ensures
        s[i] >= i,
    decreases i,
{
    if i > 0 {
        lemma_sorted_at_least(s, i - 1);
    }
}

/// A strictly increasing sequence of values below `bound` has at most
/// `bound` elements.
pub proof fn lemma_sorted_len_bound(s: Seq<u32>, bound: int)
    requires
        forall|p: int, q: int| 0 <= p < q < s.len() ==> s[p] < s[q],
        forall|p: int| 0 <= p < s.len() ==> s[p] < bound,
        0 <= bound,
    ensures
        s.len() <= bound,
{
    if s.len() > 0 {
        lemma_sorted_at_least(s, s.len() - 1);
    }
}

/// Division bounds: a value below `d * k` divides by `d` to below `k`.
pub proof fn lemma_div_below(x: int, d: int, k: int)
    requires
        0 <= x,
        1 <= d,
        x < d * k,
    ensures
        x / d < k,
{
    vstd::arithmetic::div_mod::lemma_fundamental_div_mod(x, d);
    vstd::arithmetic::div_mod::lemma_mod_bound(x, d);
    assert(x / d < k) by (nonlinear_arith)
        requires
            x == d * (x / d) + x % d,
            0 <= x % d < d,
            x < d * k,
            1 <= d,
    ;
}

/// Multiplying by the row width is monotone over row numbers.
pub proof fn lemma_row_mono(y2: int, y: int, w: int) by (nonlinear_arith)
    requires
        0 <= y2 < y,
        1 <= w,
    ensures
        y2 * w + w <= y * w,
{
}

/// Every flat grid index decomposes into in-bounds cell coordinates.
pub proof fn lemma_rm_decompose(i: int, w: int, h: int)
    requires
        1 <= w,
        1 <= h,
        0 <= i < w * h,
    ensures
        (i / w) * w + (i % w) == i,
        0 <= i % w < w,
        0 <= i / w < h,
{
    vstd::arithmetic::div_mod::lemma_fundamental_div_mod(i, w);
    vstd::arithmetic::div_mod::lemma_mod_bound(i, w);
    assert((i / w) * w == w * (i / w)) by (nonlinear_arith);
    assert(i / w < h) by (nonlinear_arith)
        requires
            1 <= w,
            0 <= i < w * h,
            i == w * (i / w) + i % w,
            0 <= i % w < w,
    ;
}

/// Two boards of equal dimensions whose cells agree everywhere have equal
/// tile sequences.
pub proof fn lemma_grid_ext(b1: Board, b2: Board)
    requires
        b1.wf_dims(),
        b1.width == b2.width,
        b1.height == b2.height,
        b2.tiles@.len() == b1.tiles@.len(),
        forall|x: int, y: int|
            b1.spec_in_bounds(x, y) ==> b1.spec_tile_at(x, y) == b2.spec_tile_at(x, y),
    ensures
        b1.tiles@ == b2.tiles@,
{
    assert forall|i: int| 0 <= i < b1.tiles@.len() implies b1.tiles@[i] == b2.tiles@[i] by {
        lemma_rm_decompose(i, b1.width as int, b1.height as int);
        let x = i % (b1.width as int);
        let y = i / (b1.width as int);
        assert(b1.spec_in_bounds(x, y));
        assert(b1.spec_tile_at(x, y) == b2.spec_tile_at(x, y));
    }
    assert(b1.tiles@ =~= b2.tiles@);
}

/// Painted-cell counts are never negative.
pub proof fn lemma_count_new_nonneg(bd: Board, a: TilePoint, b: TilePoint, k: int)
    ensures
        spec_count_new(bd, a, b, k) >= 0,
    decreases k,
{
    if k > 0 {
        lemma_count_new_nonneg(bd, a, b, k - 1);
    }
}

/// Completed-box counts are never negative.
pub proof fn lemma_completed_count_nonneg(ob: Seq<GridBox>, nb: Board, k: int)
    ensures
        spec_completed_count(ob, nb, k) >= 0,
    decreases k,
{
    if k > 0 {
        lemma_completed_count_nonneg(ob, nb, k - 1);
    }
}

/// If no tile on the segment still needs paint, the newly-painted count of
/// the whole segment is zero.
pub proof fn lemma_count_zero(bd: Board, a: TilePoint, b: TilePoint, k: int)
    requires
        forall|x: int, y: int|
            spec_on_segment(a, b, x, y) ==> !bd.spec_tile_at(x, y).spec_needs_paint(),
        k <= spec_seg_len(a, b),
    ensures
        spec_count_new(bd, a, b, k) == 0,
    decreases k,
{
    if k > 0 {
        lemma_count_zero(bd, a, b, k - 1);
        assert(spec_on_segment(a, b, spec_seg_x(a, b, k - 1), spec_seg_y(a, b, k - 1)));
    }
}

/// If each of the first `k` boxes' cached flags already equals its boundary
/// status on board `nb`, no box completes and no trigger fires.
pub proof fn lemma_completed_zero(ob: Seq<GridBox>, nb: Board, k: int)
    requires
        forall|i: int| 0 <= i < k ==> (#[trigger] ob[i].painted) == nb.spec_box_boundary_painted(ob[i]),
    ensures
        spec_completed_count(ob, nb, k) == 0,
        !spec_any_new_trigger(ob, nb, k),
    decreases k,
{
    if k > 0 {
        lemma_completed_zero(ob, nb, k - 1);
    }
}

/// A fired trigger needs a chase-triggering box that was still unpainted.
pub proof fn lemma_new_trigger_witness(ob: Seq<GridBox>, nb: Board, k: int)
    requires
        spec_any_new_trigger(ob, nb, k),
    ensures
        exists|i: int| 0 <= i < k && (#[trigger] ob[i]).triggers_chase && !ob[i].painted,
    decreases k,
{
    if k > 0 {
        if !(ob[k - 1].triggers_chase && !ob[k - 1].painted && nb.spec_box_boundary_painted(ob[k - 1])) {
            lemma_new_trigger_witness(ob, nb, k - 1);
        }
    }
}

/// LAW — painting idempotence. Painting the same junction pair twice is a
/// no-op the second time: if `mid` results from painting the segment on
/// `base`, and `fin` from painting it again on `mid`, then `fin` equals
/// `mid`, and the second call's update reports zero painted cells, zero
/// completed boxes, and no mode trigger.
pub proof fn lemma_paint_idempotent(base: Board, mid: Board, fin: Board, a: TilePoint, b: TilePoint)
    requires
        base.wf(),
        mid.wf(),
        base.spec_in_bounds(a.tx as int, a.ty as int),
        base.spec_in_bounds(b.tx as int, b.ty as int),
        a.tx == b.tx || a.ty == b.ty,
        spec_paint_effect(base, mid, a, b),
        spec_paint_effect(mid, fin, a, b),
    ensures
        fin.tiles@ == mid.tiles@,
        fin.boxes@ == mid.boxes@,
        forall|u: BoardUpdate| spec_update_reported(mid, fin, a, b, u) ==> u.spec_is_zero(),
{
    assert forall|x: int, y: int|
        mid.spec_in_bounds(x, y) implies mid.spec_tile_at(x, y) == fin.spec_tile_at(x, y) by {
        assert(base.spec_in_bounds(x, y));
    }
    lemma_grid_ext(mid, fin);
    assert forall|x: int, y: int|
        spec_on_segment(a, b, x, y) implies !mid.spec_tile_at(x, y).spec_needs_paint() by {
        // a segment tile lies between two in-bounds endpoints, so it is in
        // bounds, and the first painting already painted it
        assert(mid.spec_in_bounds(x, y));
        assert(base.spec_in_bounds(x, y));
        assert(mid.spec_tile_at(x, y) == spec_paint_tile(base.spec_tile_at(x, y)));
    }
    lemma_count_zero(mid, a, b, spec_seg_len(a, b));
    assert forall|i: int| 0 <= i < mid.boxes@.len() implies
        (#[trigger] mid.boxes@[i].painted) == fin.spec_box_boundary_painted(mid.boxes@[i]) by {
        lemma_boundary_painted_congr(mid, fin, mid.boxes@[i], mid.boxes@[i]);
    }
    lemma_completed_zero(mid.boxes@, fin, mid.boxes@.len() as int);
    assert forall|i: int| 0 <= i < mid.boxes@.len() implies fin.boxes@[i] == mid.boxes@[i] by {
        lemma_boundary_painted_congr(mid, fin, mid.boxes@[i], mid.boxes@[i]);
    }
    assert(fin.boxes@ =~= mid.boxes@);
}

/// LAW — box-cache coherence. On every well-formed board, each box's cached
/// `painted` flag equals the conjunction of the paint status of the box's
/// boundary tiles. The painting engine maintains well-formedness, so this
/// holds at every observation point of every paint sequence.
pub proof fn lemma_box_cache_coherent(bd: Board, i: int)
    requires
        bd.wf(),
        0 <= i < bd.boxes@.len(),
    ensures
        bd.boxes@[i].painted == bd.spec_box_boundary_painted(bd.boxes@[i]),
{
}

/// LAW — the mode trigger fires exactly once. A painting action reports a
/// chase trigger only when it completes a triggering box and every
/// triggering box is painted afterwards; it never reports one when all
/// triggering boxes were already painted before the action — so the trigger
/// cannot fire a second time without an intervening reset.
pub proof fn lemma_mode_trigger_once(
    pre: Board,
    post: Board,
    a: TilePoint,
    b: TilePoint,
    u: BoardUpdate,
)
    requires
        pre.wf(),
        spec_paint_effect(pre, post, a, b),
        spec_update_reported(pre, post, a, b, u),
    ensures
        u.triggers_chase ==> post.spec_all_triggers_painted() && !pre.spec_all_triggers_painted(),
        pre.spec_all_triggers_painted() ==> !u.triggers_chase,
{
    if u.triggers_chase {
        lemma_new_trigger_witness(pre.boxes@, post, pre.boxes@.len() as int);
    }
    if pre.spec_all_triggers_painted() {
        if spec_any_new_trigger(pre.boxes@, post, pre.boxes@.len() as int) {
            lemma_new_trigger_witness(pre.boxes@, post, pre.boxes@.len() as int);
        }
    }
}

impl Board {
    /// Whether every boundary tile of box `b` is painted, read from the grid.
    fn box_boundary_painted(&self, b: &GridBox) -> (r: bool)
        requires
            self.wf_dims(),
            self.spec_box_extent_wf(*b),
        ensures
            r == self.spec_box_boundary_painted(*b),
    {
        let mut y = b.top_left.ty;
        while y <= b.bottom_right.ty
            invariant
                self.wf_dims(),
                self.spec_box_extent_wf(*b),
                b.top_left.ty <= y <= b.bottom_right.ty + 1,
                forall|x2: int, y2: int|
                    Board::spec_on_box_boundary(*b, x2, y2) && y2 < y ==> self.spec_painted_at(x2, y2),
            decreases b.bottom_right.ty + 1 - y,
        {
            let mut x = b.top_left.tx;
            while x <= b.bottom_right.tx
                invariant
                    self.wf_dims(),
                    self.spec_box_extent_wf(*b),
                    b.top_left.ty <= y <= b.bottom_right.ty,
                    b.top_left.tx <= x <= b.bottom_right.tx + 1,
                    forall|x2: int, y2: int|
                        Board::spec_on_box_boundary(*b, x2, y2) && (y2 < y || (y2 == y && x2 < x))
                            ==> self.spec_painted_at(x2, y2),
                decreases b.bottom_right.tx + 1 - x,
            {
                let on_edge = x == b.top_left.tx || x == b.bottom_right.tx || y == b.top_left.ty
                    || y == b.bottom_right.ty;
                if on_edge {
                    if !self.painted_at(x, y) {
                        proof {
                            assert(Board::spec_on_box_boundary(*b, x as int, y as int));
                        }
                        return false;
                    }
                }
                x = x + 1;
            }
            y = y + 1;
        }
        true
    }

    /// Whether every chase-triggering box is painted, read from the cached
    /// flags.
    pub fn all_triggers_painted(&self) -> (r: bool)
        ensures
            r == self.spec_all_triggers_painted(),
    {
        let mut i: usize = 0;
        while i < self.boxes.len()
            invariant
                0 <= i <= self.boxes@.len(),
                forall|k: int|
                    0 <= k < i && self.boxes@[k].triggers_chase ==> self.boxes@[k].painted,
            decreases self.boxes@.len() - i,
        {
            if self.boxes[i].triggers_chase && !self.boxes[i].painted {
                return false;
            }
            i = i + 1;
        }
        true
    }

    /// Paint every walkable tile of the segment between `a` and `b`; returns
    /// the count of cells that changed. Only the grid is touched.
    fn paint_segment(&mut self, a: &TilePoint, b: &TilePoint) -> (cnt: i32)
        requires
            old(self).wf_dims(),
            old(self).spec_in_bounds(a.tx as int, a.ty as int),
            old(self).spec_in_bounds(b.tx as int, b.ty as int),
            a.tx == b.tx || a.ty == b.ty,
        ensures
            final(self).width == old(self).width,
            final(self).height == old(self).height,
            final(self).junctions == old(self).junctions,
            final(self).chase_junctions == old(self).chase_junctions,
            final(self).boxes == old(self).boxes,
            final(self).tiles@.len() == old(self).tiles@.len(),
            forall|x: int, y: int|
                old(self).spec_in_bounds(x, y)
                    ==> final(self).spec_tile_at(x, y) == (if spec_on_segment(*a, *b, x, y) {
                        spec_paint_tile(old(self).spec_tile_at(x, y))
                    } else {
                        old(self).spec_tile_at(x, y)
                    }),
            cnt == spec_count_new(*old(self), *a, *b, spec_seg_len(*a, *b)),
            0 <= cnt <= spec_seg_len(*a, *b),
    {
        let vertical = a.tx == b.tx;
        let lo: i32 = if vertical {
            if a.ty <= b.ty { a.ty } else { b.ty }
        } else {
            if a.tx <= b.tx { a.tx } else { b.tx }
        };
        let hi: i32 = if vertical {
            if a.ty <= b.ty { b.ty } else { a.ty }
        } else {
            if a.tx <= b.tx { b.tx } else { a.tx }
        };
        let len: i32 = hi - lo + 1;
        let mut cnt: i32 = 0;
        let mut k: i32 = 0;
        while k < len
            invariant
                0 <= k <= len,
                len == spec_seg_len(*a, *b),
                old(self).wf_dims(),
                old(self).spec_in_bounds(a.tx as int, a.ty as int),
                old(self).spec_in_bounds(b.tx as int, b.ty as int),
                a.tx == b.tx || a.ty == b.ty,
                vertical == (a.tx == b.tx),
                vertical ==> lo == spec_min(a.ty as int, b.ty as int) && hi == spec_max(a.ty as int, b.ty as int),
                !vertical ==> lo == spec_min(a.tx as int, b.tx as int) && hi == spec_max(a.tx as int, b.tx as int),
                self.width == old(self).width,
                self.height == old(self).height,
                self.junctions == old(self).junctions,
                self.chase_junctions == old(self).chase_junctions,
                self.boxes == old(self).boxes,
                self.tiles@.len() == old(self).tiles@.len(),
                forall|x: int, y: int|
                    old(self).spec_in_bounds(x, y)
                        ==> self.spec_tile_at(x, y) == (if spec_on_segment_upto(*a, *b, x, y, k as int) {
                            spec_paint_tile(old(self).spec_tile_at(x, y))
                        } else {
                            old(self).spec_tile_at(x, y)
                        }),
                cnt == spec_count_new(*old(self), *a, *b, k as int),
                0 <= cnt <= k,
            decreases len - k,
        {
            let x: i32 = if vertical { a.tx } else { lo + k };
            let y: i32 = if vertical { lo + k } else { a.ty };
            let ghost pre = *self;
            proof {
                assert(x == spec_seg_x(*a, *b, k as int));
                assert(y == spec_seg_y(*a, *b, k as int));
                assert(old(self).spec_in_bounds(x as int, y as int));
                mul_bounds(y as int, self.width as int, self.height as int);
            }
            let idx: usize = ((y as u32) * self.width + (x as u32)) as usize;
            let t = self.tiles[idx];
            proof {
                assert(spec_seg_pos(*a, *b, x as int, y as int) == k as int);
                assert(spec_on_segment(*a, *b, x as int, y as int));
                assert(!spec_on_segment_upto(*a, *b, x as int, y as int, k as int));
                assert(t == old(self).spec_tile_at(x as int, y as int));
            }
            if matches!(t, Tile::Unpainted | Tile::ChaseMarker) {
                cnt = cnt + 1;
            }
            if !matches!(t, Tile::Empty) {
                self.tiles.set(idx, Tile::Painted);
            }
            proof {
                assert forall|x2: int, y2: int| old(self).spec_in_bounds(x2, y2) implies
                    self.spec_tile_at(x2, y2) == (if spec_on_segment_upto(*a, *b, x2, y2, k + 1) {
                        spec_paint_tile(old(self).spec_tile_at(x2, y2))
                    } else {
                        old(self).spec_tile_at(x2, y2)
                    }) by {
                    lemma_rm_inj(pre.width as int, x2, y2, x as int, y as int);
                    if x2 == x as int && y2 == y as int {
                        assert(spec_on_segment_upto(*a, *b, x2, y2, k + 1));
                        assert(self.spec_tile_at(x2, y2) == spec_paint_tile(old(self).spec_tile_at(x2, y2)));
                    } else {
                        mul_bounds(y2, pre.width as int, pre.height as int);
                        assert(y2 * pre.width + x2 != y * pre.width + x);
                        assert(0 <= y2 * pre.width + x2 < pre.tiles@.len());
                        assert(self.spec_tile_at(x2, y2) == pre.spec_tile_at(x2, y2));
                        assert(spec_on_segment_upto(*a, *b, x2, y2, k + 1) == spec_on_segment_upto(*a, *b, x2, y2, k as int));
                    }
                }
            }
            k = k + 1;
        }
        cnt
    }

    /// Recompute every box's cached paint flag from the grid; returns the
    /// count of boxes that transitioned to painted and whether any of them
    /// was chase-triggering. Only the box list is touched.
    fn refresh_boxes(&mut self) -> (r: (i32, bool))
        requires
            old(self).wf_dims(),
            old(self).boxes@.len() <= 65536,
            forall|i: int|
                0 <= i < old(self).boxes@.len()
                    ==> old(self).spec_box_extent_wf(#[trigger] old(self).boxes@[i]),
        ensures
            final(self).width == old(self).width,
            final(self).height == old(self).height,
            final(self).junctions == old(self).junctions,
            final(self).chase_junctions == old(self).chase_junctions,
            final(self).tiles == old(self).tiles,
            final(self).boxes@.len() == old(self).boxes@.len(),
            forall|i: int|
                0 <= i < old(self).boxes@.len()
                    ==> final(self).boxes@[i] == (GridBox {
                        top_left: old(self).boxes@[i].top_left,
                        bottom_right: old(self).boxes@[i].bottom_right,
                        painted: old(self).spec_box_boundary_painted(#[trigger] old(self).boxes@[i]),
                        triggers_chase: old(self).boxes@[i].triggers_chase,
                    }),
            r.0 == spec_completed_count(old(self).boxes@, *old(self), old(self).boxes@.len() as int),
            r.1 == spec_any_new_trigger(old(self).boxes@, *old(self), old(self).boxes@.len() as int),
            0 <= r.0 <= old(self).boxes@.len(),
    {
        let mut completed: i32 = 0;
        let mut new_trigger: bool = false;
        let mut i: usize = 0;
        let n = self.boxes.len();
        while i < n
            invariant
                0 <= i <= n,
                n == old(self).boxes@.len(),
                n <= 65536,
                old(self).wf_dims(),
                forall|k: int|
                    0 <= k < n ==> old(self).spec_box_extent_wf(#[trigger] old(self).boxes@[k]),
                self.width == old(self).width,
                self.height == old(self).height,
                self.junctions == old(self).junctions,
                self.chase_junctions == old(self).chase_junctions,
                self.tiles == old(self).tiles,
                self.boxes@.len() == n,
                forall|k: int| i <= k < n ==> self.boxes@[k] == old(self).boxes@[k],
                forall|k: int|
                    0 <= k < i
                        ==> self.boxes@[k] == (GridBox {
                            top_left: old(self).boxes@[k].top_left,
                            bottom_right: old(self).boxes@[k].bottom_right,
                            painted: old(self).spec_box_boundary_painted(#[trigger] old(self).boxes@[k]),
                            triggers_chase: old(self).boxes@[k].triggers_chase,
                        }),
                completed == spec_completed_count(old(self).boxes@, *old(self), i as int),
                new_trigger == spec_any_new_trigger(old(self).boxes@, *old(self), i as int),
                0 <= completed <= i,
            decreases n - i,
        {
            let bx = self.boxes[i];
            let bp = self.box_boundary_painted(&bx);
            proof {
                lemma_boundary_painted_congr(*self, *old(self), bx, bx);
            }
            if !bx.painted && bp {
                completed = completed + 1;
                if bx.triggers_chase {
                    new_trigger = true;
                }
            }
            let updated = GridBox {
                top_left: bx.top_left,
                bottom_right: bx.bottom_right,
                painted: bp,
                triggers_chase: bx.triggers_chase,
            };
            self.boxes.set(i, updated);
            i = i + 1;
        }
        (completed, new_trigger)
    }

    /// Validate the layout rows and build the flat tile grid.
    fn tiles_from_lines(lines: &Vec<String>) -> (r: Option<(Vec<Tile>, u32, u32)>)
        ensures
            r is Some <==> spec_valid_layout(lines.deep_view()),
            r matches Some((tiles, w, h)) ==> {
                &&& h == lines@.len()
                &&& 1 <= h <= MAX_BOARD_EDGE
                &&& w == lines.deep_view()[0].len()
                &&& 1 <= w <= MAX_BOARD_EDGE
                &&& tiles@.len() == w * h
                &&& forall|x: int, y: int|
                    0 <= x < w && 0 <= y < h ==> Some(tiles@[y * w + x]) == spec_tile_char(
                        lines.deep_view()[y][x],
                    )
            },
    {
        let ghost rows = lines.deep_view();
        let h = lines.len();
        if h < 1 || h > MAX_BOARD_EDGE as usize {
            return None;
        }
        let w = lines[0].as_str().unicode_len();
        if w < 1 || w > MAX_BOARD_EDGE as usize {
            return None;
        }
        let mut tiles: Vec<Tile> = Vec::new();
        let mut y: usize = 0;
        while y < h
            invariant
                rows == lines.deep_view(),
                rows.len() == lines@.len(),
                h == lines@.len(),
                1 <= h <= MAX_BOARD_EDGE,
                w == rows[0].len(),
                1 <= w <= MAX_BOARD_EDGE,
                0 <= y <= h,
                tiles@.len() == y * w,
                forall|y2: int| 0 <= y2 < y ==> (#[trigger] rows[y2]).len() == rows[0].len(),
                forall|x2: int, y2: int|
                    0 <= x2 < w && 0 <= y2 < y ==> Some(tiles@[y2 * w + x2]) == spec_tile_char(
                        #[trigger] rows[y2][x2],
                    ),
            decreases h - y,
        {
            let row = lines[y].as_str();
            let n = row.unicode_len();
            if n != w {
                proof {
                    assert(rows[y as int] == lines@[y as int]@);
                    assert(rows[y as int].len() != rows[0].len());
                }
                return None;
            }
            let mut x: usize = 0;
            while x < w
                invariant
                    rows == lines.deep_view(),
                    0 <= y < h,
                    h == lines@.len(),
                    1 <= h <= MAX_BOARD_EDGE,
                    row@ == rows[y as int],
                    row@.len() == w,
                    1 <= w <= MAX_BOARD_EDGE,
                    w == rows[0].len(),
                    0 <= x <= w,
                    tiles@.len() == y * w + x,
                    forall|x2: int, y2: int|
                        0 <= x2 < w && 0 <= y2 < y ==> Some(tiles@[y2 * w + x2]) == spec_tile_char(
                            #[trigger] rows[y2][x2],
                        ),
                    forall|x2: int|
                        0 <= x2 < x ==> Some(tiles@[y * w + x2]) == spec_tile_char(
                            #[trigger] rows[y as int][x2],
                        ),
                decreases w - x,
            {
                let c = row.get_char(x);
                let t = if c == ' ' {
                    Tile::Empty
                } else if c == '=' {
                    Tile::Unpainted
                } else if c == 'c' {
                    Tile::ChaseMarker
                } else if c == 'p' {
                    Tile::Painted
                } else {
                    proof {
                        assert(spec_tile_char(rows[y as int][x as int]) is None);
                    }
                    return None;
                };
                proof {
                    assert(Some(t) == spec_tile_char(rows[y as int][x as int]));
                    mul_bounds(y as int, w as int, h as int);
                }
                tiles.push(t);
                proof {
                    assert forall|x2: int, y2: int|
                        0 <= x2 < w && 0 <= y2 < y implies Some(tiles@[y2 * w + x2])
                        == spec_tile_char(#[trigger] rows[y2][x2]) by {
                        mul_bounds(y2, w as int, h as int);
                        lemma_row_mono(y2, y as int, w as int);
                        lemma_rm_inj(w as int, x2, y2, x as int, y as int);
                    }
                }
                x = x + 1;
            }
            proof {
                assert((y + 1) * w == y * w + w) by (nonlinear_arith);
            }
            y = y + 1;
        }
        proof {
            mul_bounds((h - 1) as int, w as int, h as int);
            assert(spec_valid_layout(rows));
        }
        Some((tiles, w as u32, h as u32))
    }

    /// Derive the junction set the grid topology induces, in increasing
    /// index order.
    fn derive_junctions(&self) -> (j: Vec<u32>)
        requires
            self.wf_dims(),
        ensures
            forall|p: int, q: int| 0 <= p < q < j@.len() ==> j@[p] < j@[q],
            forall|p: int| 0 <= p < j@.len() ==> j@[p] < self.width * self.height,
            forall|x: int, y: int|
                self.spec_in_bounds(x, y)
                    ==> (spec_seq_has(j@, #[trigger] self.spec_index_of(x, y))
                        <==> self.spec_is_junction_topology(x, y)),
    {
        let mut j: Vec<u32> = Vec::new();
        proof {
            mul_bounds(0, self.width as int, self.height as int);
        }
        let n: u32 = self.width * self.height;
        let mut idx: u32 = 0;
        while idx < n
            invariant
                self.wf_dims(),
                n == self.width * self.height,
                n <= 65536,
                0 <= idx <= n,
                forall|p: int, q: int| 0 <= p < q < j@.len() ==> j@[p] < j@[q],
                forall|p: int| 0 <= p < j@.len() ==> j@[p] < idx,
                forall|x: int, y: int|
                    self.spec_in_bounds(x, y) && y * self.width + x < idx
                        ==> (spec_seq_has(j@, #[trigger] self.spec_index_of(x, y))
                            <==> self.spec_is_junction_topology(x, y)),
            decreases n - idx,
        {
            let x = idx % self.width;
            let y = idx / self.width;
            proof {
                lemma_rm_decompose(idx as int, self.width as int, self.height as int);
            }
            let ghost jpre = j@;
            let topo = self.is_junction_topology_at(x as i32, y as i32);
            if topo {
                j.push(idx);
                proof {
                    assert(j@[j@.len() - 1] == idx);
                }
            }
            proof {
                assert forall|x2: int, y2: int|
                    self.spec_in_bounds(x2, y2) && y2 * self.width + x2 < idx + 1 implies
                    (spec_seq_has(j@, #[trigger] self.spec_index_of(x2, y2))
                        <==> self.spec_is_junction_topology(x2, y2)) by {
                    let v = y2 * self.width + x2;
                    if topo {
                        lemma_seq_has_push(jpre, idx, v);
                    }
                    if v < idx {
                        assert(self.spec_index_of(x2, y2) == v);
                        assert(spec_seq_has(jpre, self.spec_index_of(x2, y2))
                            <==> self.spec_is_junction_topology(x2, y2));
                        if !topo || v != idx as int {
                            assert(idx != v);
                        }
                        if !topo {
                            assert(spec_seq_has(j@, v) == spec_seq_has(jpre, v));
                        }
                    } else {
                        lemma_rm_inj(self.width as int, x2, y2, x as int, y as int);
                        assert(x2 == x as int && y2 == y as int);
                        if topo {
                            assert(spec_seq_has(j@, v)) by {
                                assert(j@[j@.len() - 1] == idx);
                            }
                        } else {
                            assert(!spec_seq_has(j@, v)) by {
                                if spec_seq_has(j@, v) {
                                    let i2 = choose|i2: int| 0 <= i2 < j@.len() && j@[i2] == v;
                                    assert(jpre[i2] < idx);
                                }
                            }
                        }
                    }
                }
            }
            idx = idx + 1;
        }
        proof {
            assert forall|x2: int, y2: int| self.spec_in_bounds(x2, y2) implies
                y2 * self.width + x2 < n by {
                mul_bounds(y2, self.width as int, self.height as int);
            }
        }
        j
    }

    /// The junctions whose tile is a chase marker, in increasing order.
    fn derive_chase(&self, j: &Vec<u32>) -> (c: Vec<u32>)
        requires
            self.wf_dims(),
            forall|p: int, q: int| 0 <= p < q < j@.len() ==> j@[p] < j@[q],
            forall|p: int| 0 <= p < j@.len() ==> j@[p] < self.width * self.height,
        ensures
            c@ == spec_derive_chase(self.tiles@, j@, 0),
            forall|p: int, q: int| 0 <= p < q < c@.len() ==> c@[p] < c@[q],
            forall|p: int| 0 <= p < c@.len() ==> spec_seq_has(j@, #[trigger] c@[p] as int),
    {
        let mut c: Vec<u32> = Vec::new();
        let mut i: usize = 0;
        while i < j.len()
            invariant
                self.wf_dims(),
                forall|p: int, q: int| 0 <= p < q < j@.len() ==> j@[p] < j@[q],
                forall|p: int| 0 <= p < j@.len() ==> j@[p] < self.width * self.height,
                0 <= i <= j@.len(),
                c@ + spec_derive_chase(self.tiles@, j@, i as int) == spec_derive_chase(
                    self.tiles@,
                    j@,
                    0,
                ),
                forall|p: int, q: int| 0 <= p < q < c@.len() ==> c@[p] < c@[q],
                forall|p: int|
                    0 <= p < c@.len() ==> exists|i0: int| 0 <= i0 < i && j@[i0] == #[trigger] c@[p],
            decreases j@.len() - i,
        {
            let ghost cpre = c@;
            let idx = j[i];
            let x = idx % self.width;
            let y = idx / self.width;
            proof {
                lemma_rm_decompose(idx as int, self.width as int, self.height as int);
            }
            let t = self.tile_at(x, y);
            proof {
                assert(t == self.tiles@[j@[i as int] as int]);
            }
            if matches!(t, Tile::ChaseMarker) {
                proof {
                    assert forall|p: int| 0 <= p < c@.len() implies c@[p] < idx by {
                        let i0 = choose|i0: int| 0 <= i0 < i && j@[i0] == c@[p];
                        assert(j@[i0] < j@[i as int]);
                    }
                }
                c.push(idx);
                proof {
                    assert(j@[i as int] == c@[c@.len() - 1]);
                    assert(c@ + spec_derive_chase(self.tiles@, j@, i + 1) =~= cpre + (seq![j@[i as int]]
                        + spec_derive_chase(self.tiles@, j@, i + 1)));
                }
            }
            i = i + 1;
        }
        proof {
            assert(spec_derive_chase(self.tiles@, j@, j@.len() as int) == Seq::<u32>::empty());
            assert(c@ + Seq::<u32>::empty() =~= c@);
            assert forall|p: int| 0 <= p < c@.len() implies spec_seq_has(j@, #[trigger] c@[p] as int) by {
                let i0 = choose|i0: int| 0 <= i0 < i && j@[i0] == #[trigger] c@[p];
                assert(0 <= i0 < j@.len() && j@[i0] == c@[p]);
            }
        }
        c
    }

    /// Derive the box regions: for each junction, the minimal rectangle made
    /// with the next junction rightward and the next junction downward, kept
    /// when its four corners connect. A box triggers chase mode when any of
    /// its corner tiles is a chase marker.
    fn derive_boxes(&self) -> (v: Vec<GridBox>)
        requires
            self.wf(),
        ensures
            v@ == spec_derive_boxes(*self, 0),
            v@.len() <= self.junctions@.len(),
            forall|i: int|
                0 <= i < v@.len()
                    ==> {
                        &&& self.spec_box_extent_wf(#[trigger] v@[i])
                        &&& v@[i].painted == self.spec_box_boundary_painted(v@[i])
                    },
    {
        let mut v: Vec<GridBox> = Vec::new();
        let mut i: usize = 0;
        while i < self.junctions.len()
            invariant
                self.wf(),
                0 <= i <= self.junctions@.len(),
                v@.len() <= i,
                v@ + spec_derive_boxes(*self, i as int) == spec_derive_boxes(*self, 0),
                forall|k: int|
                    0 <= k < v@.len()
                        ==> {
                            &&& self.spec_box_extent_wf(#[trigger] v@[k])
                            &&& v@[k].painted == self.spec_box_boundary_painted(v@[k])
                        },
            decreases self.junctions@.len() - i,
        {
            let ghost vpre = v@;
            let idx = self.junctions[i];
            let x = idx % self.width;
            let y = idx / self.width;
            proof {
                lemma_rm_decompose(idx as int, self.width as int, self.height as int);
                assert(self.spec_junctions_contain(self.spec_index_of(x as int, y as int)));
                assert(self.spec_is_junction_topology(x as int, y as int));
            }
            let t = TilePoint { tx: x as i32, ty: y as i32 };
            proof {
                assert(t == spec_tile_of_index(*self, self.junctions@[i as int]));
            }
            let right = self.next_junction_in_direction(&t, Direction::Right);
            let down = self.next_junction_in_direction(&t, Direction::Down);
            if let (Some(t2), Some(t3)) = (right, down) {
                let right_down = self.next_junction_in_direction(&t2, Direction::Down);
                let down_right = self.next_junction_in_direction(&t3, Direction::Right);
                if let (Some(c1), Some(c2)) = (right_down, down_right) {
                    if c1.ty == t3.ty && c2.tx == t2.tx {
                        let corner = TilePoint { tx: t2.tx, ty: t3.ty };
                        let trig = matches!(self.tile_at(x, y), Tile::ChaseMarker)
                            || matches!(self.tile_at(t2.tx as u32, t2.ty as u32), Tile::ChaseMarker)
                            || matches!(self.tile_at(t3.tx as u32, t3.ty as u32), Tile::ChaseMarker)
                            || matches!(self.tile_at(corner.tx as u32, corner.ty as u32), Tile::ChaseMarker);
                        let mut gb = GridBox {
                            top_left: t,
                            bottom_right: corner,
                            painted: false,
                            triggers_chase: trig,
                        };
                        let bp = self.box_boundary_painted(&gb);
                        gb.painted = bp;
                        proof {
                            lemma_boundary_painted_congr(
                                *self,
                                *self,
                                GridBox { painted: false, ..gb },
                                gb,
                            );
                            assert(spec_box_at_junction(*self, i as int) == Some(gb));
                        }
                        v.push(gb);
                        proof {
                            assert(v@ + spec_derive_boxes(*self, i + 1) =~= vpre + (seq![gb]
                                + spec_derive_boxes(*self, i + 1)));
                        }
                    } else {
                        proof {
                            assert(spec_box_at_junction(*self, i as int) is None);
                        }
                    }
                } else {
                    proof {
                        assert(spec_box_at_junction(*self, i as int) is None);
                    }
                }
            } else {
                proof {
                    assert(spec_box_at_junction(*self, i as int) is None);
                }
            }
            i = i + 1;
        }
        proof {
            assert(spec_derive_boxes(*self, self.junctions@.len() as int) == Seq::<GridBox>::empty());
            assert(v@ + Seq::<GridBox>::empty() =~= v@);
        }
        v
    }

    /// Build a board from layout rows: validate the rectangle, read the
    /// tiles, and derive the junction set, the chase junctions and the box
    /// regions from the grid topology. Returns `None` exactly when the
    /// layout is invalid.
    pub fn try_new(lines: &Vec<String>) -> (r: Option<Board>)
        ensures
            r is Some <==> spec_valid_layout(lines.deep_view()),
            r matches Some(bd) ==> spec_board_from_layout(lines.deep_view(), bd),
    {
        let parsed = Self::tiles_from_lines(lines);
        let (tiles, w, h) = match parsed {
            None => {
                return None;
            },
            Some(t) => t,
        };
        let mut bd = Board {
            tiles,
            width: w,
            height: h,
            junctions: Vec::new(),
            chase_junctions: Vec::new(),
            boxes: Vec::new(),
        };
        let ghost tmp = bd;
        let j = bd.derive_junctions();
        let ghost jv = j@;
        bd.junctions = j;
        let c = bd.derive_chase(&bd.junctions);
        let ghost cv = c@;
        bd.chase_junctions = c;
        proof {
            assert(bd.wf_dims());
            assert(bd.wf_junctions()) by {
                assert forall|x: int, y: int| bd.spec_in_bounds(x, y) implies
                    (bd.spec_junctions_contain(#[trigger] bd.spec_index_of(x, y))
                        <==> bd.spec_is_junction_topology(x, y)) by {
                    assert(tmp.spec_in_bounds(x, y));
                    assert(spec_seq_has(jv, tmp.spec_index_of(x, y))
                        <==> tmp.spec_is_junction_topology(x, y));
                    assert(bd.spec_is_junction_topology(x, y) == tmp.spec_is_junction_topology(x, y));
                }
            }
            assert(bd.wf_boxes());
        }
        let bx = bd.derive_boxes();
        let ghost pre = bd;
        bd.boxes = bx;
        proof {
            assert(bd.wf_junctions()) by {
                assert forall|x: int, y: int| bd.spec_in_bounds(x, y) implies
                    (bd.spec_junctions_contain(#[trigger] bd.spec_index_of(x, y))
                        <==> bd.spec_is_junction_topology(x, y)) by {
                    assert(pre.spec_in_bounds(x, y));
                    assert(pre.spec_junctions_contain(pre.spec_index_of(x, y))
                        <==> pre.spec_is_junction_topology(x, y));
                    assert(bd.spec_is_junction_topology(x, y) == pre.spec_is_junction_topology(x, y));
                }
            }
            assert(bd.wf_boxes()) by {
                mul_bounds(0, bd.width as int, bd.height as int);
                lemma_sorted_len_bound(bd.junctions@, (bd.width * bd.height) as int);
                assert forall|i: int| 0 <= i < bd.boxes@.len() implies {
                    &&& bd.spec_box_extent_wf(#[trigger] bd.boxes@[i])
                    &&& bd.boxes@[i].painted == bd.spec_box_boundary_painted(bd.boxes@[i])
                } by {
                    lemma_boundary_painted_congr(pre, bd, bd.boxes@[i], bd.boxes@[i]);
                }
            }
            lemma_derive_boxes_congr(pre, bd, 0);
            assert(spec_board_from_layout(lines.deep_view(), bd));
        }
        Some(bd)
    }

    /// Check well-formedness of a board of unknown provenance, for example
    /// one read back from a snapshot.
    pub fn check_wf(&self) -> (r: bool)
        ensures
            r == self.wf(),
    {
        // dimensions
        if !(1 <= self.width && self.width <= MAX_BOARD_EDGE && 1 <= self.height && self.height
            <= MAX_BOARD_EDGE) {
            return false;
        }
        proof {
            mul_bounds(0, self.width as int, self.height as int);
        }
        let n: u32 = self.width * self.height;
        if self.tiles.len() != n as usize {
            return false;
        }
        // junction list: strictly increasing and on the grid
        if !check_sorted_bounded(&self.junctions, n) {
            return false;
        }
        if !check_sorted_bounded(&self.chase_junctions, n) {
            return false;
        }
        // junction list matches the grid topology, cell by cell
        let mut idx: u32 = 0;
        let mut p: usize = 0;
        while idx < n
            invariant
                self.wf_dims(),
                n == self.width * self.height,
                n <= 65536,
                0 <= idx <= n,
                0 <= p <= self.junctions@.len(),
                forall|a: int, b: int|
                    0 <= a < b < self.junctions@.len() ==> self.junctions@[a] < self.junctions@[b],
                forall|a: int| 0 <= a < self.junctions@.len() ==> self.junctions@[a] < n,
                forall|a: int| 0 <= a < p ==> self.junctions@[a] < idx,
                forall|a: int| p <= a < self.junctions@.len() ==> self.junctions@[a] >= idx,
                forall|x: int, y: int|
                    self.spec_in_bounds(x, y) && y * self.width + x < idx
                        ==> (self.spec_junctions_contain(#[trigger] self.spec_index_of(x, y))
                            <==> self.spec_is_junction_topology(x, y)),
            decreases n - idx,
        {
            let x = idx % self.width;
            let y = idx / self.width;
            proof {
                lemma_rm_decompose(idx as int, self.width as int, self.height as int);
            }
            let topo = self.is_junction_topology_at(x as i32, y as i32);
            let here = p < self.junctions.len() && self.junctions[p] == idx;
            proof {
                if here {
                    assert(self.spec_junctions_contain(idx as int));
                } else {
                    assert(!self.spec_junctions_contain(idx as int)) by {
                        if self.spec_junctions_contain(idx as int) {
                            let a = choose|a: int|
                                0 <= a < self.junctions@.len() && self.junctions@[a] == idx;
                            if a < p {
                                assert(self.junctions@[a] < idx);
                            } else {
                                if p < self.junctions@.len() && a > p {
                                    assert(self.junctions@[p as int] < self.junctions@[a]);
                                }
                            }
                        }
                    }
                }
            }
            if topo != here {
                proof {
                    assert(self.spec_index_of(x as int, y as int) == idx as int);
                    assert(!(self.spec_junctions_contain(self.spec_index_of(x as int, y as int))
                        <==> self.spec_is_junction_topology(x as int, y as int)));
                    assert(!self.wf_junctions());
                }
                return false;
            }
            if here {
                p = p + 1;
            }
            proof {
                assert forall|x2: int, y2: int|
                    self.spec_in_bounds(x2, y2) && y2 * self.width + x2 < idx + 1 implies
                    (self.spec_junctions_contain(#[trigger] self.spec_index_of(x2, y2))
                        <==> self.spec_is_junction_topology(x2, y2)) by {
                    if y2 * self.width + x2 == idx {
                        lemma_rm_inj(self.width as int, x2, y2, x as int, y as int);
                        assert(x2 == x as int && y2 == y as int);
                    }
                }
            }
            idx = idx + 1;
        }
        proof {
            assert forall|x: int, y: int| self.spec_in_bounds(x, y) implies y * self.width + x
                < n by {
                mul_bounds(y, self.width as int, self.height as int);
            }
        }
        // chase junctions are junctions
        let mut c: usize = 0;
        while c < self.chase_junctions.len()
            invariant
                0 <= c <= self.chase_junctions@.len(),
                forall|a: int|
                    0 <= a < c ==> self.spec_junctions_contain(self.chase_junctions@[a] as int),
            decreases self.chase_junctions@.len() - c,
        {
            if !self.has_junction_index(self.chase_junctions[c]) {
                return false;
            }
            c = c + 1;
        }
        // boxes: extents on the grid, cached flags coherent
        let mut b: usize = 0;
        if self.boxes.len() > 65536 {
            return false;
        }
        while b < self.boxes.len()
            invariant
                self.wf_dims(),
                0 <= b <= self.boxes@.len(),
                forall|a: int|
                    0 <= a < b
                        ==> {
                            &&& self.spec_box_extent_wf(#[trigger] self.boxes@[a])
                            &&& self.boxes@[a].painted == self.spec_box_boundary_painted(
                                self.boxes@[a],
                            )
                        },
            decreases self.boxes@.len() - b,
        {
            let gb = self.boxes[b];
            if !(0 <= gb.top_left.tx && gb.top_left.tx < gb.bottom_right.tx
                && gb.bottom_right.tx < self.width as i32 && 0 <= gb.top_left.ty && gb.top_left.ty
                < gb.bottom_right.ty && gb.bottom_right.ty < self.height as i32) {
                return false;
            }
            let bp = self.box_boundary_painted(&gb);
            if bp != gb.painted {
                return false;
            }
            b = b + 1;
        }
        true
    }

    /// Whether `j` is in the junction list, by linear scan.
    fn has_junction_index(&self, j: u32) -> (r: bool)
        ensures
            r == self.spec_junctions_contain(j as int),
    {
        let mut i: usize = 0;
        while i < self.junctions.len()
            invariant
                0 <= i <= self.junctions@.len(),
                forall|k: int| 0 <= k < i ==> self.junctions@[k] != j,
            decreases self.junctions@.len() - i,
        {
            if self.junctions[i] == j {
                proof {
                    assert(0 <= i < self.junctions@.len() && self.junctions@[i as int] == j);
                }
                return true;
            }
            i = i + 1;
        }
        false
    }

    /// Whether the cell at `(x, y)` (which must be on the grid) is a
    /// junction by the grid topology.
    fn is_junction_topology_at(&self, x: i32, y: i32) -> (r: bool)
        requires
            self.wf_dims(),
            self.spec_in_bounds(x as int, y as int),
        ensures
            r == self.spec_is_junction_topology(x as int, y as int),
    {
        if !self.walkable_at(x, y) {
            return false;
        }
        let l = self.walkable_at(x - 1, y);
        let r = self.walkable_at(x + 1, y);
        let u = self.walkable_at(x, y - 1);
        let d = self.walkable_at(x, y + 1);
        !((l && r && !u && !d) || (u && d && !l && !r))
    }

    /// The junction a mover starting at `from` and travelling in direction
    /// `d` arrives at: the first junction along that straight corridor,
    /// exactly `spec_next_junction`. Returns `None` exactly when the
    /// neighbouring tile in direction `d` is not walkable; on a well-formed
    /// board every walkable corridor ends in a junction.
    pub fn next_junction_in_direction(&self, from: &TilePoint, d: Direction) -> (r: Option<TilePoint>)
        requires
            self.wf(),
            self.spec_walkable_at(from.tx as int, from.ty as int),
        ensures
            r == spec_next_junction(*self, *from, d),
            r is Some <==> self.spec_walkable_at(from.tx + d.spec_dx(), from.ty + d.spec_dy()),
            r matches Some(t) ==> {
                &&& self.spec_in_bounds(t.tx as int, t.ty as int)
                &&& self.spec_walkable_at(t.tx as int, t.ty as int)
                &&& self.spec_junctions_contain(self.spec_index_of(t.tx as int, t.ty as int))
                &&& (d.spec_dx() == 0 ==> t.tx == from.tx)
                &&& (d.spec_dy() == 0 ==> t.ty == from.ty)
                &&& (d is Up ==> t.ty < from.ty)
                &&& (d is Down ==> t.ty > from.ty)
                &&& (d is Left ==> t.tx < from.tx)
                &&& (d is Right ==> t.tx > from.tx)
            },
    {
        proof {
            mul_bounds(0, self.width as int, self.height as int);
            lemma_sorted_len_bound(self.junctions@, (self.width * self.height) as int);
        }
        let (dx, dy) = d.delta();
        let mut cx: i32 = from.tx + dx;
        let mut cy: i32 = from.ty + dy;
        if !self.walkable_at(cx, cy) {
            return None;
        }
        proof {
            lemma_walk_fuel(
                *self,
                cx as int,
                cy as int,
                dx as int,
                dy as int,
                256,
                spec_walk_room(*self, cx as int, cy as int, dx as int, dy as int),
            );
        }
        loop
            invariant
                self.wf(),
                self.junctions@.len() < usize::MAX,
                dx == d.spec_dx(),
                dy == d.spec_dy(),
                self.spec_in_bounds(from.tx as int, from.ty as int),
                self.spec_walkable_at(from.tx + d.spec_dx(), from.ty + d.spec_dy()),
                self.spec_walkable_at(cx as int, cy as int),
                self.spec_walkable_at(cx - dx, cy - dy),
                dx == 0 ==> cx == from.tx,
                dy == 0 ==> cy == from.ty,
                d is Up ==> cy < from.ty,
                d is Down ==> cy > from.ty,
                d is Left ==> cx < from.tx,
                d is Right ==> cx > from.tx,
                spec_next_junction(*self, *from, d) == spec_next_junction_walk(
                    *self,
                    cx as int,
                    cy as int,
                    dx as int,
                    dy as int,
                    spec_walk_room(*self, cx as int, cy as int, dx as int, dy as int),
                ),
            decreases (if dy < 0 {
                cy as int
            } else if dy > 0 {
                self.height - cy
            } else if dx < 0 {
                cx as int
            } else {
                self.width - cx
            }),
        {
            let here = TilePoint { tx: cx, ty: cy };
            if self.is_junction(&here) {
                proof {
                    assert(spec_walk_room(*self, cx as int, cy as int, dx as int, dy as int) >= 1);
                }
                return Some(here);
            }
            proof {
                // not a junction: by topology well-formedness this cell is
                // the interior of a straight corridor, and since the cell we
                // came from is walkable, the corridor runs along `d`, so the
                // next cell in `d` is walkable too
                assert(self.spec_junctions_contain(self.spec_index_of(cx as int, cy as int))
                    <==> self.spec_is_junction_topology(cx as int, cy as int));
                assert(self.spec_walkable_at(cx + dx, cy + dy));
                assert(spec_walk_room(*self, cx as int, cy as int, dx as int, dy as int) >= 1);
            }
            cx = cx + dx;
            cy = cy + dy;
        }
    }

    /// The tile containing a world point, and whether that tile is a
    /// junction: how the frame algorithm decides when a mover "arrives".
    pub fn classify_position(&self, p: &WorldPoint) -> (r: (TilePoint, bool))
        requires
            self.wf(),
            0 <= p.x < self.width * crate::geometry::TILE_WORLD,
            0 <= p.y < self.height * crate::geometry::TILE_WORLD,
        ensures
            r.0.tx == p.x / crate::geometry::TILE_WORLD,
            r.0.ty == p.y / crate::geometry::TILE_WORLD,
            self.spec_in_bounds(r.0.tx as int, r.0.ty as int),
            r.1 == self.spec_junctions_contain(self.spec_index_of(r.0.tx as int, r.0.ty as int)),
    {
        let t = p.to_tile();
        proof {
            lemma_div_below(p.x as int, crate::geometry::TILE_WORLD as int, self.width as int);
            lemma_div_below(p.y as int, crate::geometry::TILE_WORLD as int, self.height as int);
            mul_bounds(0, self.width as int, self.height as int);
            lemma_sorted_len_bound(self.junctions@, (self.width * self.height) as int);
        }
        let j = self.is_junction(&t);
        (t, j)
    }

    /// Mark every unpainted tile along the straight path between two adjacent
    /// junctions as painted, recompute the cached paint flag of every box,
    /// and report what changed: how many cells were newly painted (classified
    /// by the traversal's orientation), how many boxes completed, and whether
    /// the chase-mode trigger was newly satisfied — a triggering box
    /// completed in this call with every triggering box now painted.
    ///
    /// Painting is idempotent: a segment already fully painted yields a
    /// zero-valued update and leaves the board unchanged.
    pub fn paint_between(&mut self, a: &TilePoint, b: &TilePoint) -> (u: BoardUpdate)
        requires
            old(self).wf(),
            old(self).spec_in_bounds(a.tx as int, a.ty as int),
            old(self).spec_in_bounds(b.tx as int, b.ty as int),
            a.tx == b.tx || a.ty == b.ty,
        ensures
            final(self).wf(),
            spec_paint_effect(*old(self), *final(self), *a, *b),
            spec_update_reported(*old(self), *final(self), *a, *b, u),
    {
        let ghost orig = *old(self);
        let cnt = self.paint_segment(a, b);
        let ghost mid = *self;
        let (nb, nt) = self.refresh_boxes();
        proof {
            lemma_completed_count_congr(orig.boxes@, mid, *self, orig.boxes@.len() as int);
        }
        let all_trig = self.all_triggers_painted();
        proof {
            mul_bounds(a.ty as int, self.width as int, self.height as int);
            mul_bounds(b.ty as int, self.width as int, self.height as int);
        }
        let ja: u32 = (a.ty as u32) * self.width + (a.tx as u32);
        let jb: u32 = (b.ty as u32) * self.width + (b.tx as u32);
        let vertical = a.tx == b.tx;
        let u = BoardUpdate {
            vertical: if vertical { cnt } else { 0 },
            horizontal: if vertical { 0 } else { cnt },
            num_boxes: nb,
            triggers_chase: nt && all_trig,
            junctions: Some((ja, jb)),
        };
        proof {
            assert forall|i: int| 0 <= i < orig.boxes@.len() implies
                self.boxes@[i] == (GridBox {
                    top_left: orig.boxes@[i].top_left,
                    bottom_right: orig.boxes@[i].bottom_right,
                    painted: self.spec_box_boundary_painted(#[trigger] orig.boxes@[i]),
                    triggers_chase: orig.boxes@[i].triggers_chase,
                }) by {
                lemma_boundary_painted_congr(mid, *self, orig.boxes@[i], orig.boxes@[i]);
            }
            assert forall|x: int, y: int|
                self.spec_walkable_at(x, y) == orig.spec_walkable_at(x, y) by {
                if orig.spec_in_bounds(x, y) {
                    assert(self.spec_tile_at(x, y) == (if spec_on_segment(*a, *b, x, y) {
                        spec_paint_tile(orig.spec_tile_at(x, y))
                    } else {
                        orig.spec_tile_at(x, y)
                    }));
                }
            }
            assert(self.wf_dims());
            assert(self.wf_junctions()) by {
                assert forall|x: int, y: int| self.spec_in_bounds(x, y) implies
                    (self.spec_junctions_contain(#[trigger] self.spec_index_of(x, y))
                        <==> self.spec_is_junction_topology(x, y)) by {
                    assert(orig.spec_junctions_contain(orig.spec_index_of(x, y))
                        <==> orig.spec_is_junction_topology(x, y));
                    assert(self.spec_walkable_at(x, y) == orig.spec_walkable_at(x, y));
                    assert(self.spec_walkable_at(x - 1, y) == orig.spec_walkable_at(x - 1, y));
                    assert(self.spec_walkable_at(x + 1, y) == orig.spec_walkable_at(x + 1, y));
                    assert(self.spec_walkable_at(x, y - 1) == orig.spec_walkable_at(x, y - 1));
                    assert(self.spec_walkable_at(x, y + 1) == orig.spec_walkable_at(x, y + 1));
                }
            }
            assert(self.wf_boxes()) by {
                assert forall|i: int| 0 <= i < self.boxes@.len() implies {
                    &&& self.spec_box_extent_wf(#[trigger] self.boxes@[i])
                    &&& self.boxes@[i].painted == self.spec_box_boundary_painted(self.boxes@[i])
                } by {
                    lemma_boundary_painted_congr(*self, *self, orig.boxes@[i], self.boxes@[i]);
                }
            }
        }
        u
    }
}

} // verus!
