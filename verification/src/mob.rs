//! The actor model: the closed set of movement behaviours that the player
//! and every enemy kind share, and the positioned mover ("mob") that carries
//! one behaviour, a sub-tile position, an in-flight destination and a
//! bounded history of visited junctions.

use vstd::prelude::*;

use crate::board::Board;
use crate::direction::Direction;
use crate::geometry::spec_manhattan;
use crate::geometry::TilePoint;
use crate::geometry::WorldPoint;
use crate::geometry::COORD_LIMIT;
use crate::geometry::TILE_WORLD;
use crate::random::Gen;

verus! {

broadcast use vstd::seq_lib::group_seq_properties;

/// The movement logic of one mover. A closed set: one tag per behaviour.
#[derive(Debug, Clone, Copy, PartialEq)]
pub enum MovementAI {
    /// Externally driven by input; no persisted behaviour state.
    Player,
    /// Table-driven: a cursor into a fixed route; deterministic, ignores
    /// board changes.
    EnemyLookupAI { next: u32, default_route_index: u32 },
    /// Procedural: keeps circling the outer boundary of the walkable region
    /// clockwise, re-deriving its direction from its position.
    EnemyPerimeterAI { start: TilePoint },
    /// Alternating sweep: keeps a vertical and a horizontal desire and flips
    /// them on collision with a wall, per a fixed alternation rule.
    EnemyAmidarMvmt {
        vert: Direction,
        horiz: Direction,
        start_vert: Direction,
        start_horiz: Direction,
        start: TilePoint,
    },
    /// At every junction, chooses uniformly among the legal non-reversing
    /// directions using the shared seeded generator.
    EnemyRandomMvmt { start: TilePoint, start_dir: Direction, dir: Direction },
    /// Moves randomly until the player comes within a Manhattan vision
    /// radius; then locks onto the player's position and pursues it
    /// greedily. The lock is sticky: it persists even after the player
    /// leaves the radius, until the seeker reaches the locked tile.
    EnemyTargetPlayer {
        start: TilePoint,
        start_dir: Direction,
        vision_distance: i32,
        dir: Direction,
        player_seen: Option<TilePoint>,
    },
}

/// Whether the mover standing at `t` has a legal direction other than
/// reversing its previous direction `prev` (the just-arrived-from direction
/// is the opposite of `prev`).
pub open spec fn spec_has_non_reverse(bd: Board, t: TilePoint, prev: Direction) -> bool {
    ||| (bd.spec_walkable_at(t.tx as int, t.ty - 1) && prev != Direction::Down)
    ||| (bd.spec_walkable_at(t.tx as int, t.ty + 1) && prev != Direction::Up)
    ||| (bd.spec_walkable_at(t.tx - 1, t.ty as int) && prev != Direction::Right)
    ||| (bd.spec_walkable_at(t.tx + 1, t.ty as int) && prev != Direction::Left)
}

/// Whether the mover standing at `t` has any legal direction at all.
pub open spec fn spec_has_legal(bd: Board, t: TilePoint) -> bool {
    ||| bd.spec_walkable_at(t.tx as int, t.ty - 1)
    ||| bd.spec_walkable_at(t.tx as int, t.ty + 1)
    ||| bd.spec_walkable_at(t.tx - 1, t.ty as int)
    ||| bd.spec_walkable_at(t.tx + 1, t.ty as int)
}

/// One step of the greedy direction choice: take `d` instead of `best` when
/// `d` is legal and strictly lowers the Manhattan distance to `target`.
pub open spec fn spec_greedy_step(
    bd: Board,
    t: TilePoint,
    target: TilePoint,
    best: Option<Direction>,
    d: Direction,
) -> Option<Direction> {
    let nx = t.tx + d.spec_dx();
    let ny = t.ty + d.spec_dy();
    if bd.spec_walkable_at(nx, ny) && (match best {
        Option::None => true,
        Option::Some(bd0) => spec_manhattan(
            TilePoint { tx: (nx) as i32, ty: (ny) as i32 },
            target,
        ) < spec_manhattan(
            TilePoint { tx: (t.tx + bd0.spec_dx()) as i32, ty: (t.ty + bd0.spec_dy()) as i32 },
            target,
        ),
    }) {
        Some(d)
    } else {
        best
    }
}

/// The legal direction minimizing the resulting Manhattan distance to
/// `target`, ties broken by the fixed priority order up, down, left, right.
pub open spec fn spec_greedy_dir(bd: Board, t: TilePoint, target: TilePoint) -> Option<Direction> {
    let b1 = spec_greedy_step(bd, t, target, None, Direction::Up);
    let b2 = spec_greedy_step(bd, t, target, b1, Direction::Down);
    let b3 = spec_greedy_step(bd, t, target, b2, Direction::Left);
    spec_greedy_step(bd, t, target, b3, Direction::Right)
}

/// What a destination handed out by a movement choice in direction `d` from
/// `from` satisfies: it is a walkable junction straight ahead in `d`.
pub open spec fn spec_dest_in_dir(bd: Board, from: TilePoint, d: Direction, t: TilePoint) -> bool {
    &&& bd.spec_in_bounds(t.tx as int, t.ty as int)
    &&& bd.spec_walkable_at(t.tx as int, t.ty as int)
    &&& bd.spec_junctions_contain(bd.spec_index_of(t.tx as int, t.ty as int))
    &&& (d.spec_dx() == 0 ==> t.tx == from.tx)
    &&& (d.spec_dy() == 0 ==> t.ty == from.ty)
    &&& (d is Up ==> t.ty < from.ty)
    &&& (d is Down ==> t.ty > from.ty)
    &&& (d is Left ==> t.tx < from.tx)
    &&& (d is Right ==> t.tx > from.tx)
}

/// The waypoint a table-driven mover heads for: the route is a fixed
/// circuit of the four board corners, clockwise for even route numbers and
/// counter-clockwise for odd ones.
pub open spec fn spec_route_target(route: u32, cursor: u32, w: u32, h: u32) -> TilePoint {
    let k = if route % 2 == 0 {
        (cursor % 4) as int
    } else {
        3 - cursor % 4
    };
    if k == 0 {
        TilePoint { tx: 0, ty: 0 }
    } else if k == 1 {
        TilePoint { tx: (w - 1) as i32, ty: 0 }
    } else if k == 2 {
        TilePoint { tx: (w - 1) as i32, ty: (h - 1) as i32 }
    } else {
        TilePoint { tx: 0, ty: (h - 1) as i32 }
    }
}

/// The alternating sweep's choice: keep moving along the vertical desire;
/// when a wall blocks it, flip the vertical desire and move along the
/// horizontal desire instead, flipping that too when blocked. Returns the
/// chosen direction and the new pair of desires.
pub open spec fn spec_amidar_choice(
    bd: Board,
    t: TilePoint,
    vert: Direction,
    horiz: Direction,
) -> (Option<Direction>, Direction, Direction) {
    if bd.spec_walkable_at(t.tx + vert.spec_dx(), t.ty + vert.spec_dy()) {
        (Some(vert), vert, horiz)
    } else {
        let nv = vert.spec_opposite();
        if bd.spec_walkable_at(t.tx + horiz.spec_dx(), t.ty + horiz.spec_dy()) {
            (Some(horiz), nv, horiz)
        } else {
            let nh = horiz.spec_opposite();
            if bd.spec_walkable_at(t.tx + nh.spec_dx(), t.ty + nh.spec_dy()) {
                (Some(nh), nv, nh)
            } else if bd.spec_walkable_at(t.tx + nv.spec_dx(), t.ty + nv.spec_dy()) {
                (Some(nv), nv, horiz)
            } else {
                (None, vert, horiz)
            }
        }
    }
}

/// The perimeter follower's choice: its derived heading, or failing that the
/// first of the heading's clockwise successors with a walkable neighbour.
pub open spec fn spec_perimeter_choice(bd: Board, t: TilePoint) -> Option<Direction> {
    let h0 = spec_perimeter_heading(bd, t);
    let h1 = spec_clockwise(h0);
    let h2 = spec_clockwise(h1);
    let h3 = spec_clockwise(h2);
    if bd.spec_walkable_at(t.tx + h0.spec_dx(), t.ty + h0.spec_dy()) {
        Some(h0)
    } else if bd.spec_walkable_at(t.tx + h1.spec_dx(), t.ty + h1.spec_dy()) {
        Some(h1)
    } else if bd.spec_walkable_at(t.tx + h2.spec_dx(), t.ty + h2.spec_dy()) {
        Some(h2)
    } else if bd.spec_walkable_at(t.tx + h3.spec_dx(), t.ty + h3.spec_dy()) {
        Some(h3)
    } else {
        None
    }
}

/// What one movement decision at a junction does: the relation between the
/// behaviour before (`o`) and after (`n`), and the destination handed out
/// (`dest`), for a mover standing at `cur` with the player at `player`.
/// Deterministic behaviours are pinned exactly; the randomized ones are
/// pinned up to the generator's draw, with the no-reversal and sticky-lock
/// laws stated.
pub open spec fn spec_decision_rel(
    o: MovementAI,
    n: MovementAI,
    bd: Board,
    cur: TilePoint,
    player: TilePoint,
    dest: Option<TilePoint>,
) -> bool {
    &&& (o is Player ==> dest is None && n == o)
    &&& (o matches MovementAI::EnemyLookupAI { next, default_route_index } ==> {
        &&& dest == Some(spec_route_target(default_route_index, next, bd.width, bd.height))
        &&& n == (MovementAI::EnemyLookupAI {
            next: ((next % 4 + 1) % 4) as u32,
            default_route_index,
        })
    })
    &&& (o matches MovementAI::EnemyPerimeterAI { .. } ==> {
        &&& n == o
        &&& match spec_perimeter_choice(bd, cur) {
            Option::Some(d) => dest == crate::board::spec_next_junction(bd, cur, d) && dest is Some
                && (dest matches Some(t) ==> spec_dest_in_dir(bd, cur, d, t)),
            Option::None => dest is None,
        }
    })
    &&& (o matches MovementAI::EnemyAmidarMvmt { vert, horiz, start_vert, start_horiz, start }
        ==> {
        let (choice, nv, nh) = spec_amidar_choice(bd, cur, vert, horiz);
        &&& n == (MovementAI::EnemyAmidarMvmt {
            vert: nv,
            horiz: nh,
            start_vert,
            start_horiz,
            start,
        })
        &&& match choice {
            Option::Some(d) => dest == crate::board::spec_next_junction(bd, cur, d) && dest is Some
                && (dest matches Some(t) ==> spec_dest_in_dir(bd, cur, d, t)),
            Option::None => dest is None,
        }
    })
    &&& (o matches MovementAI::EnemyRandomMvmt { start, start_dir, dir } ==> {
        &&& n matches MovementAI::EnemyRandomMvmt { start: s2, start_dir: sd2, dir: nd } && s2
            == start && sd2 == start_dir && {
            &&& (spec_has_legal(bd, cur) ==> dest is Some)
            &&& (dest is Some ==> dest == crate::board::spec_next_junction(bd, cur, nd))
            &&& (dest matches Some(t) ==> spec_dest_in_dir(bd, cur, nd, t))
            &&& (dest is None ==> nd == dir)
            // LAW — no reversal: when a legal direction other than the
            // reversal exists, the mover does not reverse
            &&& (spec_has_non_reverse(bd, cur, dir) ==> dest is Some && nd != dir.spec_opposite())
        }
    })
    &&& (o matches MovementAI::EnemyTargetPlayer {
        start,
        start_dir,
        vision_distance,
        dir,
        player_seen,
    } ==> {
        let seen1 = if spec_manhattan(cur, player) <= vision_distance {
            Some(player)
        } else {
            player_seen
        };
        &&& n matches MovementAI::EnemyTargetPlayer {
            start: s2,
            start_dir: sd2,
            vision_distance: v2,
            dir: nd,
            player_seen: ps2,
        } && s2 == start && sd2 == start_dir && v2 == vision_distance && (match seen1 {
            Option::Some(tgt) => {
                if tgt == cur {
                    // lock reached: cleared, move randomly this frame
                    &&& ps2 is None
                    &&& (spec_has_legal(bd, cur) ==> dest is Some)
                    &&& (dest is Some ==> dest == crate::board::spec_next_junction(bd, cur, nd))
                    &&& (dest matches Some(t) ==> spec_dest_in_dir(bd, cur, nd, t))
                } else {
                    // LAW — stickiness: the lock persists, whether or not
                    // the player is still within vision
                    &&& ps2 == Some(tgt)
                    &&& match spec_greedy_dir(bd, cur, tgt) {
                        Option::Some(d) => nd == d && dest == crate::board::spec_next_junction(
                            bd,
                            cur,
                            d,
                        ) && dest is Some && (dest matches Some(t) ==> spec_dest_in_dir(
                            bd,
                            cur,
                            d,
                            t,
                        )),
                        Option::None => dest is None && nd == dir,
                    }
                }
            },
            Option::None => {
                &&& ps2 is None
                &&& (spec_has_legal(bd, cur) ==> dest is Some)
                &&& (dest is Some ==> dest == crate::board::spec_next_junction(bd, cur, nd))
                &&& (dest matches Some(t) ==> spec_dest_in_dir(bd, cur, nd, t))
                &&& (spec_has_non_reverse(bd, cur, dir) ==> dest is Some && nd
                    != dir.spec_opposite())
            },
        })
    })
}

/// The clockwise successor of a direction.
pub open spec fn spec_clockwise(d: Direction) -> Direction {
    match d {
        Direction::Up => Direction::Right,
        Direction::Right => Direction::Down,
        Direction::Down => Direction::Left,
        Direction::Left => Direction::Up,
    }
}

/// The heading a perimeter follower derives from its position: rightward
/// along the top edge, down the right edge, leftward along the bottom edge,
/// up the left edge, clockwise around the board.
pub open spec fn spec_perimeter_heading(bd: Board, t: TilePoint) -> Direction {
    if t.ty == 0 && t.tx < bd.width - 1 {
        Direction::Right
    } else if t.tx == bd.width - 1 && t.ty < bd.height - 1 {
        Direction::Down
    } else if t.ty == bd.height - 1 && t.tx > 0 {
        Direction::Left
    } else if t.tx == 0 && t.ty > 0 {
        Direction::Up
    } else {
        Direction::Right
    }
}

impl Direction {
    /// The clockwise successor of this direction.
    pub fn clockwise(&self) -> (r: Direction)
        ensures
            r == spec_clockwise(*self),
    {
        match self {
            Direction::Up => Direction::Right,
            Direction::Right => Direction::Down,
            Direction::Down => Direction::Left,
            Direction::Left => Direction::Up,
        }
    }
}

impl MovementAI {
    /// Greedy direction choice toward `target`, exactly
    /// `spec_greedy_dir`.
    fn pick_toward(board: &Board, t: &TilePoint, target: &TilePoint) -> (r: Option<Direction>)
        requires
            board.wf(),
            board.spec_in_bounds(t.tx as int, t.ty as int),
            -COORD_LIMIT <= target.tx <= COORD_LIMIT,
            -COORD_LIMIT <= target.ty <= COORD_LIMIT,
        ensures
            r == spec_greedy_dir(*board, *t, *target),
            r matches Some(d) ==> board.spec_walkable_at(t.tx + d.spec_dx(), t.ty + d.spec_dy()),
    {
        let mut best: Option<Direction> = None;
        best = Self::greedy_step(board, t, target, best, Direction::Up);
        best = Self::greedy_step(board, t, target, best, Direction::Down);
        best = Self::greedy_step(board, t, target, best, Direction::Left);
        best = Self::greedy_step(board, t, target, best, Direction::Right);
        best
    }

    /// One candidate evaluation of the greedy choice.
    fn greedy_step(
        board: &Board,
        t: &TilePoint,
        target: &TilePoint,
        best: Option<Direction>,
        d: Direction,
    ) -> (r: Option<Direction>)
        requires
            board.wf(),
            board.spec_in_bounds(t.tx as int, t.ty as int),
            -COORD_LIMIT <= target.tx <= COORD_LIMIT,
            -COORD_LIMIT <= target.ty <= COORD_LIMIT,
            best matches Some(b) ==> board.spec_walkable_at(t.tx + b.spec_dx(), t.ty + b.spec_dy()),
        ensures
            r == spec_greedy_step(*board, *t, *target, best, d),
            r matches Some(rd) ==> board.spec_walkable_at(t.tx + rd.spec_dx(), t.ty + rd.spec_dy()),
    {
        let (dx, dy) = d.delta();
        let nx = t.tx + dx;
        let ny = t.ty + dy;
        if !board.walkable_at(nx, ny) {
            return best;
        }
        let cand = TilePoint { tx: nx, ty: ny };
        match best {
            None => Some(d),
            Some(b) => {
                let (bx, by) = b.delta();
                let bt = TilePoint { tx: t.tx + bx, ty: t.ty + by };
                if cand.manhattan_dist(target) < bt.manhattan_dist(target) {
                    Some(d)
                } else {
                    Some(b)
                }
            },
        }
    }

    /// Choose a direction uniformly among the legal directions, excluding
    /// the reversal of `prev` whenever at least one other legal direction
    /// exists; a dead end forces the reversal.
    fn pick_random_direction(
        board: &Board,
        t: &TilePoint,
        prev: Direction,
        rng: &mut Gen,
    ) -> (r: Option<Direction>)
        requires
            board.wf(),
            board.spec_in_bounds(t.tx as int, t.ty as int),
        ensures
            r matches Some(d) ==> board.spec_walkable_at(t.tx + d.spec_dx(), t.ty + d.spec_dy()),
            spec_has_legal(*board, *t) ==> r is Some,
            spec_has_non_reverse(*board, *t, prev) ==> (r matches Some(d) && d
                != prev.spec_opposite()),
    {
        let dirs = board.legal_directions(t);
        let rev = prev.opposite();
        let mut cands: Vec<Direction> = Vec::new();
        let mut i: usize = 0;
        while i < dirs.len()
            invariant
                0 <= i <= dirs@.len(),
                dirs@.len() <= 4,
                cands@.len() <= i,
                rev == prev.spec_opposite(),
                forall|k: int|
                    0 <= k < cands@.len() ==> cands@.contains(#[trigger] cands@[k]),
                forall|k: int|
                    0 <= k < cands@.len() ==> dirs@.contains(#[trigger] cands@[k]) && cands@[k] != rev,
                forall|k: int| 0 <= k < i && dirs@[k] != rev ==> cands@.contains(#[trigger] dirs@[k]),
            decreases dirs@.len() - i,
        {
            let d = dirs[i];
            if !matches!((d, rev), (Direction::Up, Direction::Up) | (Direction::Down, Direction::Down) | (Direction::Left, Direction::Left) | (Direction::Right, Direction::Right)) {
                cands.push(d);
                proof {
                    assert(cands@[cands@.len() - 1] == d);
                }
            }
            i = i + 1;
        }
        if cands.len() > 0 {
            let pick = rng.gen_range(cands.len() as u32) as usize;
            let d = cands[pick];
            proof {
                assert(dirs@.contains(d));
                let di = choose|di: int| 0 <= di < dirs@.len() && dirs@[di] == d;
                assert(board.spec_walkable_at(t.tx + dirs@[di].spec_dx(), t.ty + dirs@[di].spec_dy()));
            }
            Some(d)
        } else if dirs.len() > 0 {
            let pick = rng.gen_range(dirs.len() as u32) as usize;
            let d = dirs[pick];
            proof {
                if spec_has_non_reverse(*board, *t, prev) {
                    // some legal non-reversing direction exists, so the
                    // candidate list cannot have been empty
                    if board.spec_walkable_at(t.tx as int, t.ty - 1) && prev != Direction::Down {
                        assert(dirs@.contains(Direction::Up));
                        let k = choose|k: int| 0 <= k < dirs@.len() && dirs@[k] == Direction::Up;
                        assert(cands@.contains(dirs@[k]));
                    } else if board.spec_walkable_at(t.tx as int, t.ty + 1) && prev != Direction::Up {
                        assert(dirs@.contains(Direction::Down));
                        let k = choose|k: int| 0 <= k < dirs@.len() && dirs@[k] == Direction::Down;
                        assert(cands@.contains(dirs@[k]));
                    } else if board.spec_walkable_at(t.tx - 1, t.ty as int) && prev != Direction::Right {
                        assert(dirs@.contains(Direction::Left));
                        let k = choose|k: int| 0 <= k < dirs@.len() && dirs@[k] == Direction::Left;
                        assert(cands@.contains(dirs@[k]));
                    } else {
                        assert(dirs@.contains(Direction::Right));
                        let k = choose|k: int| 0 <= k < dirs@.len() && dirs@[k] == Direction::Right;
                        assert(cands@.contains(dirs@[k]));
                    }
                }
            }
            Some(d)
        } else {
            proof {
                if spec_has_legal(*board, *t) {
                    if board.spec_walkable_at(t.tx as int, t.ty - 1) {
                        assert(dirs@.contains(Direction::Up));
                    } else if board.spec_walkable_at(t.tx as int, t.ty + 1) {
                        assert(dirs@.contains(Direction::Down));
                    } else if board.spec_walkable_at(t.tx - 1, t.ty as int) {
                        assert(dirs@.contains(Direction::Left));
                    } else {
                        assert(dirs@.contains(Direction::Right));
                    }
                }
            }
            None
        }
    }

    /// Advance this behaviour by one decision at a junction: consume the
    /// board topology and the mover's own state, produce the next
    /// destination tile (or none), and update the persisted state — exactly
    /// as `spec_decision_rel` relates them, which carries two tie-break
    /// laws: a random mover never reverses through its previous direction
    /// unless the junction is a dead end, and a target-seeker's lock on the
    /// player is sticky — it survives the player leaving the vision radius
    /// and clears only when the seeker reaches the locked tile.
    pub fn choose_next_tile(
        &mut self,
        board: &Board,
        current: &TilePoint,
        player: &TilePoint,
        rng: &mut Gen,
    ) -> (r: Option<TilePoint>)
        requires
            board.wf(),
            board.spec_walkable_at(current.tx as int, current.ty as int),
            board.spec_in_bounds(player.tx as int, player.ty as int),
            *old(self) matches MovementAI::EnemyTargetPlayer { player_seen: Some(t), .. }
                ==> board.spec_in_bounds(t.tx as int, t.ty as int),
        ensures
            spec_decision_rel(*old(self), *final(self), *board, *current, *player, r),
            *old(self) is Player ==> *final(rng) == *old(rng),
            *old(self) matches MovementAI::EnemyLookupAI { .. } ==> *final(rng) == *old(rng),
            *old(self) matches MovementAI::EnemyPerimeterAI { .. } ==> *final(rng) == *old(rng),
            *old(self) matches MovementAI::EnemyAmidarMvmt { .. } ==> *final(rng) == *old(rng),
    {
        let ai = *self;
        match ai {
            MovementAI::Player => None,
            MovementAI::EnemyLookupAI { next, default_route_index } => {
                let target = Self::route_target(default_route_index, next, board.width, board.height);
                *self = MovementAI::EnemyLookupAI {
                    next: (next % 4 + 1) % 4,
                    default_route_index,
                };
                Some(target)
            },
            MovementAI::EnemyPerimeterAI { start: _ } => {
                let h0 = Self::perimeter_heading(board, current);
                let h1 = h0.clockwise();
                let h2 = h1.clockwise();
                let h3 = h2.clockwise();
                let d = if Self::dir_open(board, current, h0) {
                    Some(h0)
                } else if Self::dir_open(board, current, h1) {
                    Some(h1)
                } else if Self::dir_open(board, current, h2) {
                    Some(h2)
                } else if Self::dir_open(board, current, h3) {
                    Some(h3)
                } else {
                    None
                };
                match d {
                    Some(d) => board.next_junction_in_direction(current, d),
                    None => None,
                }
            },
            MovementAI::EnemyAmidarMvmt { vert, horiz, start_vert, start_horiz, start } => {
                let (choice, nv, nh) = if Self::dir_open(board, current, vert) {
                    (Some(vert), vert, horiz)
                } else {
                    let fv = vert.opposite();
                    if Self::dir_open(board, current, horiz) {
                        (Some(horiz), fv, horiz)
                    } else {
                        let fh = horiz.opposite();
                        if Self::dir_open(board, current, fh) {
                            (Some(fh), fv, fh)
                        } else if Self::dir_open(board, current, fv) {
                            (Some(fv), fv, horiz)
                        } else {
                            (None, vert, horiz)
                        }
                    }
                };
                *self = MovementAI::EnemyAmidarMvmt {
                    vert: nv,
                    horiz: nh,
                    start_vert,
                    start_horiz,
                    start,
                };
                match choice {
                    Some(d) => board.next_junction_in_direction(current, d),
                    None => None,
                }
            },
            MovementAI::EnemyRandomMvmt { start, start_dir, dir } => {
                let choice = Self::pick_random_direction(board, current, dir, rng);
                match choice {
                    Some(d) => {
                        *self = MovementAI::EnemyRandomMvmt { start, start_dir, dir: d };
                        board.next_junction_in_direction(current, d)
                    },
                    None => None,
                }
            },
            MovementAI::EnemyTargetPlayer { start, start_dir, vision_distance, dir, player_seen } => {
                let seen1 = if current.manhattan_dist(player) <= vision_distance {
                    Some(*player)
                } else {
                    player_seen
                };
                match seen1 {
                    Some(tgt) => {
                        if tgt.tx == current.tx && tgt.ty == current.ty {
                            // reached the locked tile: clear the lock and
                            // fall back to a random choice
                            let choice = Self::pick_random_direction(board, current, dir, rng);
                            match choice {
                                Some(d) => {
                                    *self = MovementAI::EnemyTargetPlayer {
                                        start,
                                        start_dir,
                                        vision_distance,
                                        dir: d,
                                        player_seen: None,
                                    };
                                    board.next_junction_in_direction(current, d)
                                },
                                None => {
                                    *self = MovementAI::EnemyTargetPlayer {
                                        start,
                                        start_dir,
                                        vision_distance,
                                        dir,
                                        player_seen: None,
                                    };
                                    None
                                },
                            }
                        } else {
                            let choice = Self::pick_toward(board, current, &tgt);
                            match choice {
                                Some(d) => {
                                    *self = MovementAI::EnemyTargetPlayer {
                                        start,
                                        start_dir,
                                        vision_distance,
                                        dir: d,
                                        player_seen: Some(tgt),
                                    };
                                    board.next_junction_in_direction(current, d)
                                },
                                None => {
                                    *self = MovementAI::EnemyTargetPlayer {
                                        start,
                                        start_dir,
                                        vision_distance,
                                        dir,
                                        player_seen: Some(tgt),
                                    };
                                    None
                                },
                            }
                        }
                    },
                    None => {
                        let choice = Self::pick_random_direction(board, current, dir, rng);
                        match choice {
                            Some(d) => {
                                *self = MovementAI::EnemyTargetPlayer {
                                    start,
                                    start_dir,
                                    vision_distance,
                                    dir: d,
                                    player_seen: None,
                                };
                                board.next_junction_in_direction(current, d)
                            },
                            None => {
                                *self = MovementAI::EnemyTargetPlayer {
                                    start,
                                    start_dir,
                                    vision_distance,
                                    dir,
                                    player_seen: None,
                                };
                                None
                            },
                        }
                    },
                }
            },
        }
    }

    /// Whether the neighbouring tile in direction `d` is walkable.
    fn dir_open(board: &Board, t: &TilePoint, d: Direction) -> (r: bool)
        requires
            board.wf(),
            board.spec_in_bounds(t.tx as int, t.ty as int),
        ensures
            r == board.spec_walkable_at(t.tx + d.spec_dx(), t.ty + d.spec_dy()),
    {
        let (dx, dy) = d.delta();
        board.walkable_at(t.tx + dx, t.ty + dy)
    }

    /// The perimeter follower's derived heading.
    fn perimeter_heading(board: &Board, t: &TilePoint) -> (r: Direction)
        requires
            board.wf(),
            board.spec_in_bounds(t.tx as int, t.ty as int),
        ensures
            r == spec_perimeter_heading(*board, *t),
    {
        if t.ty == 0 && t.tx < board.width as i32 - 1 {
            Direction::Right
        } else if t.tx == board.width as i32 - 1 && t.ty < board.height as i32 - 1 {
            Direction::Down
        } else if t.ty == board.height as i32 - 1 && t.tx > 0 {
            Direction::Left
        } else if t.tx == 0 && t.ty > 0 {
            Direction::Up
        } else {
            Direction::Right
        }
    }

    /// The table-driven mover's waypoint, exactly `spec_route_target`.
    fn route_target(route: u32, cursor: u32, w: u32, h: u32) -> (r: TilePoint)
        requires
            1 <= w <= 0x10000,
            1 <= h <= 0x10000,
        ensures
            r == spec_route_target(route, cursor, w, h),
    {
        let k = if route % 2 == 0 {
            cursor % 4
        } else {
            3 - cursor % 4
        };
        if k == 0 {
            TilePoint { tx: 0, ty: 0 }
        } else if k == 1 {
            TilePoint { tx: (w - 1) as i32, ty: 0 }
        } else if k == 2 {
            TilePoint { tx: (w - 1) as i32, ty: (h - 1) as i32 }
        } else {
            TilePoint { tx: 0, ty: (h - 1) as i32 }
        }
    }
}

/// A mover: the player or an enemy, sharing one structure.
#[derive(Debug, Clone, PartialEq)]
pub struct Mob {
    /// How this mover is controlled.
    pub ai: MovementAI,
    /// Position in sub-tile world coordinates.
    pub position: WorldPoint,
    /// Whether this mover has been caught during chase mode.
    pub caught: bool,
    /// World units moved per frame.
    pub speed: i32,
    /// The destination tile while mid-transit between two junctions.
    pub step: Option<TilePoint>,
    /// The most recently visited junction indices, oldest first.
    pub history: Vec<u32>,
}

/// A bounded FIFO push: append the junction index and evict the oldest
/// entries past the bound.
pub open spec fn spec_push_history(h: Seq<u32>, j: u32, limit: u32) -> Seq<u32> {
    let s = h.push(j);
    if s.len() <= limit {
        s
    } else {
        s.skip(s.len() - limit)
    }
}

/// Where a mover ends up after one frame of motion toward the world point
/// `t`: it travels `speed` world units along one axis (horizontal first),
/// snapping to the target on the last step.
pub open spec fn spec_move_toward(p: WorldPoint, t: WorldPoint, speed: int) -> WorldPoint {
    if p.x < t.x {
        WorldPoint { x: (if p.x + speed >= t.x { t.x as int } else { p.x + speed }) as i32, y: p.y }
    } else if p.x > t.x {
        WorldPoint { x: (if p.x - speed <= t.x { t.x as int } else { p.x - speed }) as i32, y: p.y }
    } else if p.y < t.y {
        WorldPoint { x: p.x, y: (if p.y + speed >= t.y { t.y as int } else { p.y + speed }) as i32 }
    } else if p.y > t.y {
        WorldPoint { x: p.x, y: (if p.y - speed <= t.y { t.y as int } else { p.y - speed }) as i32 }
    } else {
        p
    }
}

impl Mob {
    /// A fresh mover with the given behaviour, position and speed.
    pub fn new(ai: MovementAI, position: WorldPoint, speed: i32) -> (m: Mob)
        ensures
            m.ai == ai,
            m.position == position,
            m.caught == false,
            m.speed == speed,
            m.step is None,
            m.history@.len() == 0,
    {
        Mob { ai, position, caught: false, speed, step: None, history: Vec::new() }
    }

    /// Record a visited junction in the bounded FIFO history.
    pub fn push_history(&mut self, j: u32, limit: u32)
        requires
            old(self).history@.len() <= 0x10000,
        ensures
            final(self).history@ == spec_push_history(old(self).history@, j, limit),
            *final(self) == (Mob { history: final(self).history, ..*old(self) }),
    {
        self.history.push(j);
        proof {
            assert(self.history@ == old(self).history@.push(j));
        }
        let ghost pushed = self.history@;
        while self.history.len() > limit as usize
            invariant
                pushed.len() <= 0x10001,
                0 <= self.history@.len() <= pushed.len(),
                self.history@.len() >= limit || self.history@.len() == pushed.len(),
                self.history@ == pushed.skip(pushed.len() - self.history@.len()),
                self.ai == old(self).ai,
                self.position == old(self).position,
                self.caught == old(self).caught,
                self.speed == old(self).speed,
                self.step == old(self).step,
            decreases self.history@.len(),
        {
            self.history.remove(0);
            proof {
                assert(self.history@ =~= pushed.skip(pushed.len() - self.history@.len()));
            }
        }
        proof {
            if pushed.len() <= limit {
                assert(self.history@ =~= pushed);
            }
            assert(self.history@ =~= spec_push_history(old(self).history@, j, limit));
        }
    }

    /// Advance the in-flight motion by one frame toward the pending
    /// destination; no pending destination means no motion.
    pub fn advance_motion(&mut self)
        requires
            0 <= old(self).speed <= TILE_WORLD,
            -0x100000 <= old(self).position.x <= 0x100000,
            -0x100000 <= old(self).position.y <= 0x100000,
            old(self).step matches Some(t) ==> -COORD_LIMIT <= t.tx <= COORD_LIMIT && -COORD_LIMIT
                <= t.ty <= COORD_LIMIT,
        ensures
            *final(self) == (Mob {
                position: final(self).position,
                ..*old(self)
            }),
            match old(self).step {
                Option::Some(t) => final(self).position == spec_move_toward(
                    old(self).position,
                    WorldPoint { x: (t.tx * TILE_WORLD) as i32, y: (t.ty * TILE_WORLD) as i32 },
                    old(self).speed as int,
                ),
                Option::None => final(self).position == old(self).position,
            },
    {
        let target = match &self.step {
            Some(t) => t.to_world(),
            None => {
                return ;
            },
        };
        let p = self.position;
        let speed = self.speed;
        if p.x < target.x {
            self.position.x = if p.x + speed >= target.x {
                target.x
            } else {
                p.x + speed
            };
        } else if p.x > target.x {
            self.position.x = if p.x - speed <= target.x {
                target.x
            } else {
                p.x - speed
            };
        } else if p.y < target.y {
            self.position.y = if p.y + speed >= target.y {
                target.y
            } else {
                p.y + speed
            };
        } else if p.y > target.y {
            self.position.y = if p.y - speed <= target.y {
                target.y
            } else {
                p.y - speed
            };
        }
    }

    /// Whether the mover has arrived at its pending destination: its
    /// position is exactly the destination tile's world point.
    pub fn arrived(&self) -> (r: bool)
        requires
            self.step matches Some(t) ==> -COORD_LIMIT <= t.tx <= COORD_LIMIT && -COORD_LIMIT
                <= t.ty <= COORD_LIMIT,
        ensures
            r == match self.step {
                Option::Some(t) => self.position == (WorldPoint {
                    x: (t.tx * TILE_WORLD) as i32,
                    y: (t.ty * TILE_WORLD) as i32,
                }),
                Option::None => false,
            },
    {
        match &self.step {
            Some(t) => {
                let w = t.to_world();
                self.position.x == w.x && self.position.y == w.y
            },
            None => false,
        }
    }
}

} // verus!
