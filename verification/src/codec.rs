//! Flattening a game state to a stream of 32-bit words and back.
//!
//! Every field of the per-frame state is stored — nothing is re-derived on
//! restore — and the round trip is proved exact: decoding the encoding of
//! any state yields that state, field for field.

use vstd::prelude::*;

use crate::amidar::StateCore;
use crate::board::Board;
use crate::board::GridBox;
use crate::board::Tile;
use crate::direction::Direction;
use crate::geometry::TilePoint;
use crate::geometry::WorldPoint;
use crate::mob::Mob;
use crate::mob::MovementAI;
use crate::random::Gen;

verus! {

/// The mathematical content of a mover: its fields with the history as a
/// sequence.
pub struct MobModel {
    pub ai: MovementAI,
    pub position: WorldPoint,
    pub caught: bool,
    pub speed: i32,
    pub step: Option<TilePoint>,
    pub history: Seq<u32>,
}

/// The mathematical content of a board.
pub struct BoardModel {
    pub tiles: Seq<Tile>,
    pub width: u32,
    pub height: u32,
    pub junctions: Seq<u32>,
    pub chase_junctions: Seq<u32>,
    pub boxes: Seq<GridBox>,
}

/// The mathematical content of a frame snapshot.
pub struct CoreModel {
    pub rand: u32,
    pub score: i32,
    pub lives: i32,
    pub level: i32,
    pub jumps: i32,
    pub chase_timer: i32,
    pub jump_timer: i32,
    pub player: MobModel,
    pub enemies: Seq<MobModel>,
    pub board: BoardModel,
}

impl Mob {
    /// This mover's mathematical content.
    pub open spec fn model(self) -> MobModel {
        MobModel {
            ai: self.ai,
            position: self.position,
            caught: self.caught,
            speed: self.speed,
            step: self.step,
            history: self.history@,
        }
    }
}

impl Board {
    /// This board's mathematical content.
    pub open spec fn model(self) -> BoardModel {
        BoardModel {
            tiles: self.tiles@,
            width: self.width,
            height: self.height,
            junctions: self.junctions@,
            chase_junctions: self.chase_junctions@,
            boxes: self.boxes@,
        }
    }
}

impl StateCore {
    /// This snapshot's mathematical content.
    pub open spec fn model(self) -> CoreModel {
        CoreModel {
            rand: self.rand.state,
            score: self.score,
            lives: self.lives,
            level: self.level,
            jumps: self.jumps,
            chase_timer: self.chase_timer,
            jump_timer: self.jump_timer,
            player: self.player.model(),
            enemies: Seq::new(self.enemies@.len(), |i: int| self.enemies@[i].model()),
            board: self.board.model(),
        }
    }
}

/// Sizes under which every count fits one word.
pub open spec fn spec_mob_model_valid(m: MobModel) -> bool {
    m.history.len() <= u32::MAX
}

/// Sizes under which every count of the model fits one word.
pub open spec fn spec_core_model_valid(m: CoreModel) -> bool {
    &&& spec_mob_model_valid(m.player)
    &&& m.enemies.len() <= u32::MAX
    &&& forall|i: int| 0 <= i < m.enemies.len() ==> spec_mob_model_valid(#[trigger] m.enemies[i])
    &&& m.board.tiles.len() <= u32::MAX
    &&& m.board.junctions.len() <= u32::MAX
    &&& m.board.chase_junctions.len() <= u32::MAX
    &&& m.board.boxes.len() <= u32::MAX
}

/// A boolean as one word.
pub open spec fn enc_bool(b: bool) -> u32 {
    if b {
        1u32
    } else {
        0u32
    }
}

/// A direction as one word.
pub open spec fn enc_dir(d: Direction) -> u32 {
    match d {
        Direction::Up => 0u32,
        Direction::Down => 1u32,
        Direction::Left => 2u32,
        Direction::Right => 3u32,
    }
}

/// A tile as one word.
pub open spec fn enc_tile(t: Tile) -> u32 {
    match t {
        Tile::Empty => 0u32,
        Tile::Unpainted => 1u32,
        Tile::ChaseMarker => 2u32,
        Tile::Painted => 3u32,
    }
}

/// A tile point as two words.
pub open spec fn enc_tp(t: TilePoint) -> Seq<u32> {
    seq![t.tx as u32, t.ty as u32]
}

/// An optional tile point: a presence word, then the point.
pub open spec fn enc_opt_tp(o: Option<TilePoint>) -> Seq<u32> {
    match o {
        Option::None => seq![0u32],
        Option::Some(t) => seq![1u32] + enc_tp(t),
    }
}

/// A behaviour: a tag word, then its fields.
pub open spec fn enc_ai(ai: MovementAI) -> Seq<u32> {
    match ai {
        MovementAI::Player => seq![0u32],
        MovementAI::EnemyLookupAI { next, default_route_index } => seq![
            1u32,
            next,
            default_route_index,
        ],
        MovementAI::EnemyPerimeterAI { start } => seq![2u32] + enc_tp(start),
        MovementAI::EnemyAmidarMvmt { vert, horiz, start_vert, start_horiz, start } => seq![
            3u32,
            enc_dir(vert),
            enc_dir(horiz),
            enc_dir(start_vert),
            enc_dir(start_horiz),
        ] + enc_tp(start),
        MovementAI::EnemyRandomMvmt { start, start_dir, dir } => seq![4u32] + enc_tp(start) + seq![
            enc_dir(start_dir),
            enc_dir(dir),
        ],
        MovementAI::EnemyTargetPlayer { start, start_dir, vision_distance, dir, player_seen } => seq![
            5u32,
        ] + enc_tp(start) + seq![enc_dir(start_dir), vision_distance as u32, enc_dir(dir)]
            + enc_opt_tp(player_seen),
    }
}

/// A word list: a count word, then the words.
pub open spec fn enc_u32s(s: Seq<u32>) -> Seq<u32> {
    seq![s.len() as u32] + s
}

/// A mover: behaviour, position, caught flag, speed, pending step, history.
pub open spec fn enc_mob(m: MobModel) -> Seq<u32> {
    enc_ai(m.ai) + seq![
        m.position.x as u32,
        m.position.y as u32,
        enc_bool(m.caught),
        m.speed as u32,
    ] + enc_opt_tp(m.step) + enc_u32s(m.history)
}

/// The movers from index `i` on, concatenated.
pub open spec fn enc_mobs(ms: Seq<MobModel>, i: int) -> Seq<u32>
    decreases ms.len() - i,
{
    if i < 0 || i >= ms.len() {
        Seq::empty()
    } else {
        enc_mob(ms[i]) + enc_mobs(ms, i + 1)
    }
}

/// The tiles from index `i` on, one word each.
pub open spec fn enc_tiles(ts: Seq<Tile>, i: int) -> Seq<u32>
    decreases ts.len() - i,
{
    if i < 0 || i >= ts.len() {
        Seq::empty()
    } else {
        seq![enc_tile(ts[i])] + enc_tiles(ts, i + 1)
    }
}

/// One box: its two corners, the cached paint flag, the trigger flag.
pub open spec fn enc_box(b: GridBox) -> Seq<u32> {
    enc_tp(b.top_left) + enc_tp(b.bottom_right) + seq![enc_bool(b.painted), enc_bool(
        b.triggers_chase,
    )]
}

/// The boxes from index `i` on, concatenated.
pub open spec fn enc_boxes(bs: Seq<GridBox>, i: int) -> Seq<u32>
    decreases bs.len() - i,
{
    if i < 0 || i >= bs.len() {
        Seq::empty()
    } else {
        enc_box(bs[i]) + enc_boxes(bs, i + 1)
    }
}

/// A board: dimensions, then the tile grid, the junction sets, the boxes,
/// each with a count.
pub open spec fn enc_board(b: BoardModel) -> Seq<u32> {
    seq![b.width, b.height, b.tiles.len() as u32] + enc_tiles(b.tiles, 0) + enc_u32s(b.junctions)
        + enc_u32s(b.chase_junctions) + seq![b.boxes.len() as u32] + enc_boxes(b.boxes, 0)
}

/// A whole snapshot: the generator state, the scalar fields, the player,
/// the enemies with a count, the board.
pub open spec fn enc_core(m: CoreModel) -> Seq<u32> {
    seq![
        m.rand,
        m.score as u32,
        m.lives as u32,
        m.level as u32,
        m.jumps as u32,
        m.chase_timer as u32,
        m.jump_timer as u32,
    ] + enc_mob(m.player) + seq![m.enemies.len() as u32] + enc_mobs(m.enemies, 0) + enc_board(
        m.board,
    )
}

/// Read one word.
pub open spec fn dec_word(t: Seq<u32>, i: int) -> Option<(u32, int)> {
    if 0 <= i < t.len() {
        Some((t[i], i + 1))
    } else {
        None
    }
}

/// Read a boolean; only 0 and 1 are accepted.
pub open spec fn dec_bool(t: Seq<u32>, i: int) -> Option<(bool, int)> {
    match dec_word(t, i) {
        Option::Some((v, j)) => if v == 0 {
            Some((false, j))
        } else if v == 1 {
            Some((true, j))
        } else {
            None
        },
        Option::None => None,
    }
}

/// Read a direction tag.
pub open spec fn dec_dir(t: Seq<u32>, i: int) -> Option<(Direction, int)> {
    match dec_word(t, i) {
        Option::Some((v, j)) => if v == 0 {
            Some((Direction::Up, j))
        } else if v == 1 {
            Some((Direction::Down, j))
        } else if v == 2 {
            Some((Direction::Left, j))
        } else if v == 3 {
            Some((Direction::Right, j))
        } else {
            None
        },
        Option::None => None,
    }
}

/// Read a tile tag.
pub open spec fn dec_tile(t: Seq<u32>, i: int) -> Option<(Tile, int)> {
    match dec_word(t, i) {
        Option::Some((v, j)) => if v == 0 {
            Some((Tile::Empty, j))
        } else if v == 1 {
            Some((Tile::Unpainted, j))
        } else if v == 2 {
            Some((Tile::ChaseMarker, j))
        } else if v == 3 {
            Some((Tile::Painted, j))
        } else {
            None
        },
        Option::None => None,
    }
}

/// Read a tile point.
pub open spec fn dec_tp(t: Seq<u32>, i: int) -> Option<(TilePoint, int)> {
    if 0 <= i && i + 2 <= t.len() {
        Some((TilePoint { tx: t[i] as i32, ty: t[i + 1] as i32 }, i + 2))
    } else {
        None
    }
}

/// Read an optional tile point.
pub open spec fn dec_opt_tp(t: Seq<u32>, i: int) -> Option<(Option<TilePoint>, int)> {
    match dec_word(t, i) {
        Option::Some((v, j)) => if v == 0 {
            Some((None, j))
        } else if v == 1 {
            match dec_tp(t, j) {
                Option::Some((p, j2)) => Some((Some(p), j2)),
                Option::None => None,
            }
        } else {
            None
        },
        Option::None => None,
    }
}

/// Read a behaviour.
pub open spec fn dec_ai(t: Seq<u32>, i: int) -> Option<(MovementAI, int)> {
    match dec_word(t, i) {
        Option::Some((tag, j)) => if tag == 0 {
            Some((MovementAI::Player, j))
        } else if tag == 1 {
            if j + 2 <= t.len() {
                Some((
                    MovementAI::EnemyLookupAI { next: t[j], default_route_index: t[j + 1] },
                    j + 2,
                ))
            } else {
                None
            }
        } else if tag == 2 {
            match dec_tp(t, j) {
                Option::Some((start, j2)) => Some((MovementAI::EnemyPerimeterAI { start }, j2)),
                Option::None => None,
            }
        } else if tag == 3 {
            match dec_dir(t, j) {
                Option::Some((vert, j2)) => match dec_dir(t, j2) {
                    Option::Some((horiz, j3)) => match dec_dir(t, j3) {
                        Option::Some((start_vert, j4)) => match dec_dir(t, j4) {
                            Option::Some((start_horiz, j5)) => match dec_tp(t, j5) {
                                Option::Some((start, j6)) => Some((
                                    MovementAI::EnemyAmidarMvmt {
                                        vert,
                                        horiz,
                                        start_vert,
                                        start_horiz,
                                        start,
                                    },
                                    j6,
                                )),
                                Option::None => None,
                            },
                            Option::None => None,
                        },
                        Option::None => None,
                    },
                    Option::None => None,
                },
                Option::None => None,
            }
        } else if tag == 4 {
            match dec_tp(t, j) {
                Option::Some((start, j2)) => match dec_dir(t, j2) {
                    Option::Some((start_dir, j3)) => match dec_dir(t, j3) {
                        Option::Some((dir, j4)) => Some((
                            MovementAI::EnemyRandomMvmt { start, start_dir, dir },
                            j4,
                        )),
                        Option::None => None,
                    },
                    Option::None => None,
                },
                Option::None => None,
            }
        } else if tag == 5 {
            match dec_tp(t, j) {
                Option::Some((start, j2)) => match dec_dir(t, j2) {
                    Option::Some((start_dir, j3)) => match dec_word(t, j3) {
                        Option::Some((vd, j4)) => match dec_dir(t, j4) {
                            Option::Some((dir, j5)) => match dec_opt_tp(t, j5) {
                                Option::Some((player_seen, j6)) => Some((
                                    MovementAI::EnemyTargetPlayer {
                                        start,
                                        start_dir,
                                        vision_distance: vd as i32,
                                        dir,
                                        player_seen,
                                    },
                                    j6,
                                )),
                                Option::None => None,
                            },
                            Option::None => None,
                        },
                        Option::None => None,
                    },
                    Option::None => None,
                },
                Option::None => None,
            }
        } else {
            None
        },
        Option::None => None,
    }
}

/// Read a counted word list.
pub open spec fn dec_u32s(t: Seq<u32>, i: int) -> Option<(Seq<u32>, int)> {
    if 0 <= i < t.len() && i + 1 + t[i] <= t.len() {
        Some((t.subrange(i + 1, i + 1 + t[i]), i + 1 + t[i]))
    } else {
        None
    }
}

/// Read a mover.
pub open spec fn dec_mob(t: Seq<u32>, i: int) -> Option<(MobModel, int)> {
    match dec_ai(t, i) {
        Option::Some((ai, j)) => if j + 4 <= t.len() {
            let position = WorldPoint { x: t[j] as i32, y: t[j + 1] as i32 };
            match dec_bool(t, j + 2) {
                Option::Some((caught, _)) => {
                    let speed = t[j + 3] as i32;
                    match dec_opt_tp(t, j + 4) {
                        Option::Some((step, j2)) => match dec_u32s(t, j2) {
                            Option::Some((history, j3)) => Some((
                                MobModel { ai, position, caught, speed, step, history },
                                j3,
                            )),
                            Option::None => None,
                        },
                        Option::None => None,
                    }
                },
                Option::None => None,
            }
        } else {
            None
        },
        Option::None => None,
    }
}

/// Read `n` movers.
pub open spec fn dec_mobs(t: Seq<u32>, i: int, n: nat) -> Option<(Seq<MobModel>, int)>
    decreases n,
{
    if n == 0 {
        Some((Seq::empty(), i))
    } else {
        match dec_mob(t, i) {
            Option::Some((m, j)) => match dec_mobs(t, j, (n - 1) as nat) {
                Option::Some((rest, j2)) => Some((seq![m] + rest, j2)),
                Option::None => None,
            },
            Option::None => None,
        }
    }
}

/// Read `n` tiles.
pub open spec fn dec_tiles(t: Seq<u32>, i: int, n: nat) -> Option<(Seq<Tile>, int)>
    decreases n,
{
    if n == 0 {
        Some((Seq::empty(), i))
    } else {
        match dec_tile(t, i) {
            Option::Some((x, j)) => match dec_tiles(t, j, (n - 1) as nat) {
                Option::Some((rest, j2)) => Some((seq![x] + rest, j2)),
                Option::None => None,
            },
            Option::None => None,
        }
    }
}

/// Read one box.
pub open spec fn dec_box(t: Seq<u32>, i: int) -> Option<(GridBox, int)> {
    match dec_tp(t, i) {
        Option::Some((top_left, j)) => match dec_tp(t, j) {
            Option::Some((bottom_right, j2)) => match dec_bool(t, j2) {
                Option::Some((painted, j3)) => match dec_bool(t, j3) {
                    Option::Some((triggers_chase, j4)) => Some((
                        GridBox { top_left, bottom_right, painted, triggers_chase },
                        j4,
                    )),
                    Option::None => None,
                },
                Option::None => None,
            },
            Option::None => None,
        },
        Option::None => None,
    }
}

/// Read `n` boxes.
pub open spec fn dec_boxes(t: Seq<u32>, i: int, n: nat) -> Option<(Seq<GridBox>, int)>
    decreases n,
{
    if n == 0 {
        Some((Seq::empty(), i))
    } else {
        match dec_box(t, i) {
            Option::Some((x, j)) => match dec_boxes(t, j, (n - 1) as nat) {
                Option::Some((rest, j2)) => Some((seq![x] + rest, j2)),
                Option::None => None,
            },
            Option::None => None,
        }
    }
}

/// Read a board.
pub open spec fn dec_board(t: Seq<u32>, i: int) -> Option<(BoardModel, int)> {
    if 0 <= i && i + 3 <= t.len() {
        let width = t[i];
        let height = t[i + 1];
        let ntiles = t[i + 2];
        match dec_tiles(t, i + 3, ntiles as nat) {
            Option::Some((tiles, j)) => match dec_u32s(t, j) {
                Option::Some((junctions, j2)) => match dec_u32s(t, j2) {
                    Option::Some((chase_junctions, j3)) => if 0 <= j3 < t.len() {
                        let nboxes = t[j3];
                        match dec_boxes(t, j3 + 1, nboxes as nat) {
                            Option::Some((boxes, j4)) => Some((
                                BoardModel { tiles, width, height, junctions, chase_junctions, boxes },
                                j4,
                            )),
                            Option::None => None,
                        }
                    } else {
                        None
                    },
                    Option::None => None,
                },
                Option::None => None,
            },
            Option::None => None,
        }
    } else {
        None
    }
}

/// Read a whole snapshot.
pub open spec fn dec_core(t: Seq<u32>, i: int) -> Option<(CoreModel, int)> {
    if 0 <= i && i + 7 <= t.len() {
        match dec_mob(t, i + 7) {
            Option::Some((player, j)) => if j < t.len() {
                let n = t[j];
                match dec_mobs(t, j + 1, n as nat) {
                    Option::Some((enemies, j2)) => match dec_board(t, j2) {
                        Option::Some((board, j3)) => Some((
                            CoreModel {
                                rand: t[i],
                                score: t[i + 1] as i32,
                                lives: t[i + 2] as i32,
                                level: t[i + 3] as i32,
                                jumps: t[i + 4] as i32,
                                chase_timer: t[i + 5] as i32,
                                jump_timer: t[i + 6] as i32,
                                player,
                                enemies,
                                board,
                            },
                            j3,
                        )),
                        Option::None => None,
                    },
                    Option::None => None,
                }
            } else {
                None
            },
            Option::None => None,
        }
    } else {
        None
    }
}

/// A 32-bit value survives the trip through its unsigned representation.
pub proof fn lemma_i32_round_trip(x: i32)
    ensures
        (x as u32) as i32 == x,
{
    assert((x as u32) as i32 == x) by (bit_vector);
}

/// One element of a matched window.
proof fn lemma_sub_index(t: Seq<u32>, i: int, e: Seq<u32>, p: int)
    requires
        0 <= i,
        i + e.len() <= t.len(),
        t.subrange(i, i + e.len()) == e,
        0 <= p < e.len(),
    ensures
        t[i + p] == e[p],
{
    assert(t.subrange(i, i + e.len() as int)[p] == t[i + p]);
}

/// A window matching a concatenation splits into two matching windows.
proof fn lemma_sub_split(t: Seq<u32>, i: int, a: Seq<u32>, b: Seq<u32>)
    requires
        0 <= i,
        i + a.len() + b.len() <= t.len(),
        t.subrange(i, i + a.len() + b.len()) == a + b,
    ensures
        t.subrange(i, i + a.len()) == a,
        t.subrange(i + a.len(), i + a.len() + b.len()) == b,
{
    assert forall|p: int| 0 <= p < a.len() implies t.subrange(i, i + a.len() as int)[p] == a[p] by {
        lemma_sub_index(t, i, a + b, p);
        assert((a + b)[p] == a[p]);
    }
    assert(t.subrange(i, i + a.len() as int) =~= a);
    assert forall|p: int| 0 <= p < b.len() implies t.subrange(
        i + a.len(),
        i + a.len() + b.len() as int,
    )[p] == b[p] by {
        lemma_sub_index(t, i, a + b, a.len() + p);
        assert((a + b)[a.len() + p] == b[p]);
    }
    assert(t.subrange(i + a.len(), i + a.len() + b.len() as int) =~= b);
}

/// Decoding the encoding of a tile point yields it back.
proof fn lemma_rt_tp(x: TilePoint, t: Seq<u32>, i: int)
    requires
        0 <= i,
        i + 2 <= t.len(),
        t.subrange(i, i + 2) == enc_tp(x),
    ensures
        dec_tp(t, i) == Some((x, i + 2)),
{
    lemma_sub_index(t, i, enc_tp(x), 0);
    lemma_sub_index(t, i, enc_tp(x), 1);
    lemma_i32_round_trip(x.tx);
    lemma_i32_round_trip(x.ty);
}

/// Decoding the encoding of an optional tile point yields it back.
proof fn lemma_rt_opt_tp(x: Option<TilePoint>, t: Seq<u32>, i: int)
    requires
        0 <= i,
        i + enc_opt_tp(x).len() <= t.len(),
        t.subrange(i, i + enc_opt_tp(x).len()) == enc_opt_tp(x),
    ensures
        dec_opt_tp(t, i) == Some((x, i + enc_opt_tp(x).len())),
{
    match x {
        Option::None => {
            lemma_sub_index(t, i, enc_opt_tp(x), 0);
        },
        Option::Some(p) => {
            lemma_sub_split(t, i, seq![1u32], enc_tp(p));
            lemma_sub_index(t, i, seq![1u32], 0);
            lemma_rt_tp(p, t, i + 1);
        },
    }
}

/// Decoding the encoding of a direction yields it back.
proof fn lemma_rt_dir(x: Direction, t: Seq<u32>, i: int)
    requires
        0 <= i,
        i + 1 <= t.len(),
        t.subrange(i, i + 1) == seq![enc_dir(x)],
    ensures
        dec_dir(t, i) == Some((x, i + 1)),
{
    lemma_sub_index(t, i, seq![enc_dir(x)], 0);
}

/// Decoding the encoding of a behaviour yields it back.
#[verifier::rlimit(60)]
proof fn lemma_rt_ai(x: MovementAI, t: Seq<u32>, i: int)
    requires
        0 <= i,
        i + enc_ai(x).len() <= t.len(),
        t.subrange(i, i + enc_ai(x).len()) == enc_ai(x),
    ensures
        dec_ai(t, i) == Some((x, i + enc_ai(x).len())),
{
    lemma_sub_index(t, i, enc_ai(x), 0);
    match x {
        MovementAI::Player => {},
        MovementAI::EnemyLookupAI { next, default_route_index } => {
            lemma_sub_index(t, i, enc_ai(x), 1);
            lemma_sub_index(t, i, enc_ai(x), 2);
        },
        MovementAI::EnemyPerimeterAI { start } => {
            lemma_sub_split(t, i, seq![2u32], enc_tp(start));
            lemma_rt_tp(start, t, i + 1);
        },
        MovementAI::EnemyAmidarMvmt { vert, horiz, start_vert, start_horiz, start } => {
            let hd = seq![
                3u32,
                enc_dir(vert),
                enc_dir(horiz),
                enc_dir(start_vert),
                enc_dir(start_horiz),
            ];
            lemma_sub_split(t, i, hd, enc_tp(start));
            lemma_sub_index(t, i, hd, 1);
            lemma_sub_index(t, i, hd, 2);
            lemma_sub_index(t, i, hd, 3);
            lemma_sub_index(t, i, hd, 4);
            lemma_rt_tp(start, t, i + 5);
            assert(dec_dir(t, i + 1) == Some((vert, i + 2)));
            assert(dec_dir(t, i + 2) == Some((horiz, i + 3)));
            assert(dec_dir(t, i + 3) == Some((start_vert, i + 4)));
            assert(dec_dir(t, i + 4) == Some((start_horiz, i + 5)));
        },
        MovementAI::EnemyRandomMvmt { start, start_dir, dir } => {
            lemma_sub_split(t, i, seq![4u32] + enc_tp(start), seq![enc_dir(start_dir), enc_dir(dir)]);
            lemma_sub_split(t, i, seq![4u32], enc_tp(start));
            lemma_rt_tp(start, t, i + 1);
            lemma_sub_index(t, i + 3, seq![enc_dir(start_dir), enc_dir(dir)], 0);
            lemma_sub_index(t, i + 3, seq![enc_dir(start_dir), enc_dir(dir)], 1);
            assert(dec_dir(t, i + 3) == Some((start_dir, i + 4)));
            assert(dec_dir(t, i + 4) == Some((dir, i + 5)));
        },
        MovementAI::EnemyTargetPlayer { start, start_dir, vision_distance, dir, player_seen } => {
            let mid = seq![enc_dir(start_dir), vision_distance as u32, enc_dir(dir)];
            lemma_sub_split(t, i, seq![5u32] + enc_tp(start) + mid, enc_opt_tp(player_seen));
            lemma_sub_split(t, i, seq![5u32] + enc_tp(start), mid);
            lemma_sub_split(t, i, seq![5u32], enc_tp(start));
            lemma_rt_tp(start, t, i + 1);
            lemma_sub_index(t, i + 3, mid, 0);
            lemma_sub_index(t, i + 3, mid, 1);
            lemma_sub_index(t, i + 3, mid, 2);
            assert(dec_dir(t, i + 3) == Some((start_dir, i + 4)));
            lemma_i32_round_trip(vision_distance);
            assert(dec_dir(t, i + 5) == Some((dir, i + 6)));
            lemma_rt_opt_tp(player_seen, t, i + 6);
        },
    }
}

/// Decoding the encoding of a word list yields it back.
proof fn lemma_rt_u32s(x: Seq<u32>, t: Seq<u32>, i: int)
    requires
        0 <= i,
        x.len() <= u32::MAX,
        i + enc_u32s(x).len() <= t.len(),
        t.subrange(i, i + enc_u32s(x).len()) == enc_u32s(x),
    ensures
        dec_u32s(t, i) == Some((x, i + 1 + x.len())),
{
    lemma_sub_split(t, i, seq![x.len() as u32], x);
    lemma_sub_index(t, i, seq![x.len() as u32], 0);
    assert(t[i] == x.len() as u32);
    assert(t.subrange(i + 1, i + 1 + x.len() as int) == x);
}

/// Decoding the encoding of a mover yields it back.
proof fn lemma_rt_mob(x: MobModel, t: Seq<u32>, i: int)
    requires
        0 <= i,
        spec_mob_model_valid(x),
        i + enc_mob(x).len() <= t.len(),
        t.subrange(i, i + enc_mob(x).len()) == enc_mob(x),
    ensures
        dec_mob(t, i) == Some((x, i + enc_mob(x).len())),
{
    let mid = seq![x.position.x as u32, x.position.y as u32, enc_bool(x.caught), x.speed as u32];
    lemma_sub_split(t, i, enc_ai(x.ai) + mid + enc_opt_tp(x.step), enc_u32s(x.history));
    lemma_sub_split(t, i, enc_ai(x.ai) + mid, enc_opt_tp(x.step));
    lemma_sub_split(t, i, enc_ai(x.ai), mid);
    lemma_rt_ai(x.ai, t, i);
    let j = i + enc_ai(x.ai).len();
    lemma_sub_index(t, j, mid, 0);
    lemma_sub_index(t, j, mid, 1);
    lemma_sub_index(t, j, mid, 2);
    lemma_sub_index(t, j, mid, 3);
    lemma_i32_round_trip(x.position.x);
    lemma_i32_round_trip(x.position.y);
    lemma_i32_round_trip(x.speed);
    lemma_rt_opt_tp(x.step, t, j + 4);
    lemma_rt_u32s(x.history, t, j + 4 + enc_opt_tp(x.step).len());
}

/// Decoding the encodings of a mover list yields it back.
proof fn lemma_rt_mobs(xs: Seq<MobModel>, t: Seq<u32>, i: int)
    requires
        0 <= i,
        forall|k: int| 0 <= k < xs.len() ==> spec_mob_model_valid(#[trigger] xs[k]),
        i + enc_mobs(xs, 0).len() <= t.len(),
        t.subrange(i, i + enc_mobs(xs, 0).len()) == enc_mobs(xs, 0),
    ensures
        dec_mobs(t, i, xs.len()) == Some((xs, i + enc_mobs(xs, 0).len())),
    decreases xs.len(),
{
    if xs.len() == 0 {
        assert(xs =~= Seq::<MobModel>::empty());
    } else {
        assert(enc_mobs(xs, 0) == enc_mob(xs[0]) + enc_mobs(xs, 1));
        lemma_enc_mobs_tail(xs, 1);
        lemma_sub_split(t, i, enc_mob(xs[0]), enc_mobs(xs.skip(1), 0));
        lemma_rt_mob(xs[0], t, i);
        assert(forall|k: int|
            0 <= k < xs.skip(1).len() ==> spec_mob_model_valid(#[trigger] xs.skip(1)[k]));
        lemma_rt_mobs(xs.skip(1), t, i + enc_mob(xs[0]).len());
        assert(seq![xs[0]] + xs.skip(1) =~= xs);
    }
}

/// The encoding from position `i` equals the tail's encoding shifted.
proof fn lemma_enc_mobs_tail(xs: Seq<MobModel>, i: int)
    requires
        1 <= i <= xs.len(),
    ensures
        enc_mobs(xs, i) == enc_mobs(xs.skip(1), i - 1),
    decreases xs.len() - i,
{
    if i < xs.len() {
        lemma_enc_mobs_tail(xs, i + 1);
        assert(xs.skip(1)[i - 1] == xs[i]);
    }
}

/// The tile encoding from position `i` equals the tail's, shifted.
proof fn lemma_enc_tiles_tail(xs: Seq<Tile>, i: int)
    requires
        1 <= i <= xs.len(),
    ensures
        enc_tiles(xs, i) == enc_tiles(xs.skip(1), i - 1),
    decreases xs.len() - i,
{
    if i < xs.len() {
        lemma_enc_tiles_tail(xs, i + 1);
        assert(xs.skip(1)[i - 1] == xs[i]);
    }
}

/// Decoding the encodings of a tile list yields it back.
proof fn lemma_rt_tiles(xs: Seq<Tile>, t: Seq<u32>, i: int)
    requires
        0 <= i,
        i + enc_tiles(xs, 0).len() <= t.len(),
        t.subrange(i, i + enc_tiles(xs, 0).len()) == enc_tiles(xs, 0),
    ensures
        dec_tiles(t, i, xs.len()) == Some((xs, i + enc_tiles(xs, 0).len())),
    decreases xs.len(),
{
    if xs.len() == 0 {
        assert(xs =~= Seq::<Tile>::empty());
    } else {
        assert(enc_tiles(xs, 0) == seq![enc_tile(xs[0])] + enc_tiles(xs, 1));
        lemma_enc_tiles_tail(xs, 1);
        lemma_sub_split(t, i, seq![enc_tile(xs[0])], enc_tiles(xs.skip(1), 0));
        lemma_sub_index(t, i, seq![enc_tile(xs[0])], 0);
        lemma_rt_tiles(xs.skip(1), t, i + 1);
        assert(seq![xs[0]] + xs.skip(1) =~= xs);
    }
}

/// The box encoding from position `i` equals the tail's, shifted.
proof fn lemma_enc_boxes_tail(xs: Seq<GridBox>, i: int)
    requires
        1 <= i <= xs.len(),
    ensures
        enc_boxes(xs, i) == enc_boxes(xs.skip(1), i - 1),
    decreases xs.len() - i,
{
    if i < xs.len() {
        lemma_enc_boxes_tail(xs, i + 1);
        assert(xs.skip(1)[i - 1] == xs[i]);
    }
}

/// Decoding the encoding of one box yields it back.
proof fn lemma_rt_box(x: GridBox, t: Seq<u32>, i: int)
    requires
        0 <= i,
        i + 6 <= t.len(),
        t.subrange(i, i + 6) == enc_box(x),
    ensures
        dec_box(t, i) == Some((x, i + 6)),
{
    let tail = seq![enc_bool(x.painted), enc_bool(x.triggers_chase)];
    lemma_sub_split(t, i, enc_tp(x.top_left) + enc_tp(x.bottom_right), tail);
    lemma_sub_split(t, i, enc_tp(x.top_left), enc_tp(x.bottom_right));
    lemma_rt_tp(x.top_left, t, i);
    lemma_rt_tp(x.bottom_right, t, i + 2);
    lemma_sub_index(t, i + 4, tail, 0);
    lemma_sub_index(t, i + 4, tail, 1);
}

/// Decoding the encodings of a box list yields it back.
proof fn lemma_rt_boxes(xs: Seq<GridBox>, t: Seq<u32>, i: int)
    requires
        0 <= i,
        i + enc_boxes(xs, 0).len() <= t.len(),
        t.subrange(i, i + enc_boxes(xs, 0).len()) == enc_boxes(xs, 0),
    ensures
        dec_boxes(t, i, xs.len()) == Some((xs, i + enc_boxes(xs, 0).len())),
    decreases xs.len(),
{
    if xs.len() == 0 {
        assert(xs =~= Seq::<GridBox>::empty());
    } else {
        assert(enc_boxes(xs, 0) == enc_box(xs[0]) + enc_boxes(xs, 1));
        lemma_enc_boxes_tail(xs, 1);
        lemma_sub_split(t, i, enc_box(xs[0]), enc_boxes(xs.skip(1), 0));
        lemma_rt_box(xs[0], t, i);
        lemma_rt_boxes(xs.skip(1), t, i + 6);
        assert(seq![xs[0]] + xs.skip(1) =~= xs);
    }
}

/// Decoding the encoding of a board yields it back.
proof fn lemma_rt_board(x: BoardModel, t: Seq<u32>, i: int)
    requires
        0 <= i,
        x.tiles.len() <= u32::MAX,
        x.junctions.len() <= u32::MAX,
        x.chase_junctions.len() <= u32::MAX,
        x.boxes.len() <= u32::MAX,
        i + enc_board(x).len() <= t.len(),
        t.subrange(i, i + enc_board(x).len()) == enc_board(x),
    ensures
        dec_board(t, i) == Some((x, i + enc_board(x).len())),
{
    let hd = seq![x.width, x.height, x.tiles.len() as u32];
    let p1 = hd + enc_tiles(x.tiles, 0);
    let p2 = p1 + enc_u32s(x.junctions);
    let p3 = p2 + enc_u32s(x.chase_junctions);
    let p4 = p3 + seq![x.boxes.len() as u32];
    lemma_sub_split(t, i, p4, enc_boxes(x.boxes, 0));
    lemma_sub_split(t, i, p3, seq![x.boxes.len() as u32]);
    lemma_sub_split(t, i, p2, enc_u32s(x.chase_junctions));
    lemma_sub_split(t, i, p1, enc_u32s(x.junctions));
    lemma_sub_split(t, i, hd, enc_tiles(x.tiles, 0));
    lemma_sub_index(t, i, hd, 0);
    lemma_sub_index(t, i, hd, 1);
    lemma_sub_index(t, i, hd, 2);
    lemma_rt_tiles(x.tiles, t, i + 3);
    let j = i + 3 + enc_tiles(x.tiles, 0).len();
    lemma_rt_u32s(x.junctions, t, j);
    let j2 = j + 1 + x.junctions.len();
    lemma_rt_u32s(x.chase_junctions, t, j2);
    let j3 = j2 + 1 + x.chase_junctions.len();
    lemma_sub_index(t, j3, seq![x.boxes.len() as u32], 0);
    lemma_rt_boxes(x.boxes, t, j3 + 1);
    lemma_enc_tiles_len(x.tiles, 0);
}

/// Each tile is one word.
proof fn lemma_enc_tiles_len(xs: Seq<Tile>, i: int)
    requires
        0 <= i <= xs.len(),
    ensures
        enc_tiles(xs, i).len() == xs.len() - i,
    decreases xs.len() - i,
{
    if i < xs.len() {
        lemma_enc_tiles_len(xs, i + 1);
    }
}

/// LAW — the word layer round-trips: decoding the encoding of any snapshot
/// (with its counts in word range) yields exactly that snapshot.
pub proof fn lemma_core_round_trip(x: CoreModel, t: Seq<u32>, i: int)
    requires
        0 <= i,
        spec_core_model_valid(x),
        i + enc_core(x).len() <= t.len(),
        t.subrange(i, i + enc_core(x).len()) == enc_core(x),
    ensures
        dec_core(t, i) == Some((x, i + enc_core(x).len())),
{
    let hd = seq![
        x.rand,
        x.score as u32,
        x.lives as u32,
        x.level as u32,
        x.jumps as u32,
        x.chase_timer as u32,
        x.jump_timer as u32,
    ];
    let p1 = hd + enc_mob(x.player);
    let p2 = p1 + seq![x.enemies.len() as u32];
    let p3 = p2 + enc_mobs(x.enemies, 0);
    lemma_sub_split(t, i, p3, enc_board(x.board));
    lemma_sub_split(t, i, p2, enc_mobs(x.enemies, 0));
    lemma_sub_split(t, i, p1, seq![x.enemies.len() as u32]);
    lemma_sub_split(t, i, hd, enc_mob(x.player));
    lemma_sub_index(t, i, hd, 0);
    lemma_sub_index(t, i, hd, 1);
    lemma_sub_index(t, i, hd, 2);
    lemma_sub_index(t, i, hd, 3);
    lemma_sub_index(t, i, hd, 4);
    lemma_sub_index(t, i, hd, 5);
    lemma_sub_index(t, i, hd, 6);
    lemma_i32_round_trip(x.score);
    lemma_i32_round_trip(x.lives);
    lemma_i32_round_trip(x.level);
    lemma_i32_round_trip(x.jumps);
    lemma_i32_round_trip(x.chase_timer);
    lemma_i32_round_trip(x.jump_timer);
    lemma_rt_mob(x.player, t, i + 7);
    let j = i + 7 + enc_mob(x.player).len();
    lemma_sub_index(t, j, seq![x.enemies.len() as u32], 0);
    lemma_rt_mobs(x.enemies, t, j + 1);
    let j2 = j + 1 + enc_mobs(x.enemies, 0).len();
    lemma_rt_board(x.board, t, j2);
}

/// Append a tile point.
fn push_tp(out: &mut Vec<u32>, t: &TilePoint)
    ensures
        final(out)@ == old(out)@ + enc_tp(*t),
{
    out.push(t.tx as u32);
    out.push(t.ty as u32);
    proof {
        assert(out@ =~= old(out)@ + enc_tp(*t));
    }
}

/// Append an optional tile point.
fn push_opt_tp(out: &mut Vec<u32>, o: &Option<TilePoint>)
    ensures
        final(out)@ == old(out)@ + enc_opt_tp(*o),
{
    match o {
        None => {
            out.push(0);
            proof {
                assert(out@ =~= old(out)@ + enc_opt_tp(*o));
            }
        },
        Some(t) => {
            out.push(1);
            push_tp(out, t);
            proof {
                assert(out@ =~= old(out)@ + enc_opt_tp(*o));
            }
        },
    }
}

/// The word of a direction.
fn dir_word(d: &Direction) -> (r: u32)
    ensures
        r == enc_dir(*d),
{
    match d {
        Direction::Up => 0,
        Direction::Down => 1,
        Direction::Left => 2,
        Direction::Right => 3,
    }
}

/// Append a behaviour.
fn push_ai(out: &mut Vec<u32>, ai: &MovementAI)
    ensures
        final(out)@ == old(out)@ + enc_ai(*ai),
{
    match ai {
        MovementAI::Player => {
            out.push(0);
        },
        MovementAI::EnemyLookupAI { next, default_route_index } => {
            out.push(1);
            out.push(*next);
            out.push(*default_route_index);
        },
        MovementAI::EnemyPerimeterAI { start } => {
            out.push(2);
            push_tp(out, start);
        },
        MovementAI::EnemyAmidarMvmt { vert, horiz, start_vert, start_horiz, start } => {
            out.push(3);
            out.push(dir_word(vert));
            out.push(dir_word(horiz));
            out.push(dir_word(start_vert));
            out.push(dir_word(start_horiz));
            push_tp(out, start);
        },
        MovementAI::EnemyRandomMvmt { start, start_dir, dir } => {
            out.push(4);
            push_tp(out, start);
            out.push(dir_word(start_dir));
            out.push(dir_word(dir));
        },
        MovementAI::EnemyTargetPlayer { start, start_dir, vision_distance, dir, player_seen } => {
            out.push(5);
            push_tp(out, start);
            out.push(dir_word(start_dir));
            out.push(*vision_distance as u32);
            out.push(dir_word(dir));
            push_opt_tp(out, player_seen);
        },
    }
    proof {
        assert(out@ =~= old(out)@ + enc_ai(*ai));
    }
}

/// Append a mover.
fn push_mob(out: &mut Vec<u32>, m: &Mob)
    requires
        m.history@.len() <= u32::MAX,
    ensures
        final(out)@ == old(out)@ + enc_mob(m.model()),
{
    push_ai(out, &m.ai);
    out.push(m.position.x as u32);
    out.push(m.position.y as u32);
    out.push(if m.caught {
        1
    } else {
        0
    });
    out.push(m.speed as u32);
    push_opt_tp(out, &m.step);
    out.push(m.history.len() as u32);
    let ghost base = out@;
    let mut k: usize = 0;
    while k < m.history.len()
        invariant
            0 <= k <= m.history@.len(),
            out@ == base + m.history@.take(k as int),
        decreases m.history@.len() - k,
    {
        out.push(m.history[k]);
        proof {
            assert(out@ =~= base + m.history@.take(k + 1));
        }
        k = k + 1;
    }
    proof {
        assert(m.history@.take(m.history@.len() as int) =~= m.history@);
        assert(out@ =~= old(out)@ + enc_mob(m.model()));
    }
}

/// Append a box.
fn push_box(out: &mut Vec<u32>, b: &GridBox)
    ensures
        final(out)@ == old(out)@ + enc_box(*b),
{
    push_tp(out, &b.top_left);
    push_tp(out, &b.bottom_right);
    out.push(if b.painted {
        1
    } else {
        0
    });
    out.push(if b.triggers_chase {
        1
    } else {
        0
    });
    proof {
        assert(out@ =~= old(out)@ + enc_box(*b));
    }
}

/// Append a counted word list.
fn push_u32s(out: &mut Vec<u32>, s: &Vec<u32>)
    requires
        s@.len() <= u32::MAX,
    ensures
        final(out)@ == old(out)@ + enc_u32s(s@),
{
    out.push(s.len() as u32);
    let ghost base = out@;
    let mut k: usize = 0;
    while k < s.len()
        invariant
            0 <= k <= s@.len(),
            out@ == base + s@.take(k as int),
        decreases s@.len() - k,
    {
        out.push(s[k]);
        proof {
            assert(out@ =~= base + s@.take(k + 1));
        }
        k = k + 1;
    }
    proof {
        assert(s@.take(s@.len() as int) =~= s@);
        assert(out@ =~= old(out)@ + enc_u32s(s@));
    }
}

/// Append a board.
fn push_board(out: &mut Vec<u32>, b: &Board)
    requires
        b.tiles@.len() <= u32::MAX,
        b.junctions@.len() <= u32::MAX,
        b.chase_junctions@.len() <= u32::MAX,
        b.boxes@.len() <= u32::MAX,
    ensures
        final(out)@ == old(out)@ + enc_board(b.model()),
{
    out.push(b.width);
    out.push(b.height);
    out.push(b.tiles.len() as u32);
    let ghost base = out@;
    let mut k: usize = 0;
    while k < b.tiles.len()
        invariant
            0 <= k <= b.tiles@.len(),
            out@ + enc_tiles(b.tiles@, k as int) == base + enc_tiles(b.tiles@, 0),
        decreases b.tiles@.len() - k,
    {
        let w = match b.tiles[k] {
            Tile::Empty => 0,
            Tile::Unpainted => 1,
            Tile::ChaseMarker => 2,
            Tile::Painted => 3,
        };
        out.push(w);
        proof {
            assert(enc_tiles(b.tiles@, k as int) == seq![enc_tile(b.tiles@[k as int])] + enc_tiles(
                b.tiles@,
                k + 1,
            ));
            assert(out@ + enc_tiles(b.tiles@, k + 1) =~= base + enc_tiles(b.tiles@, 0));
        }
        k = k + 1;
    }
    push_u32s(out, &b.junctions);
    push_u32s(out, &b.chase_junctions);
    out.push(b.boxes.len() as u32);
    let ghost base2 = out@;
    let mut k2: usize = 0;
    while k2 < b.boxes.len()
        invariant
            0 <= k2 <= b.boxes@.len(),
            out@ + enc_boxes(b.boxes@, k2 as int) == base2 + enc_boxes(b.boxes@, 0),
        decreases b.boxes@.len() - k2,
    {
        let gb = b.boxes[k2];
        push_box(out, &gb);
        proof {
            assert(enc_boxes(b.boxes@, k2 as int) == enc_box(b.boxes@[k2 as int]) + enc_boxes(
                b.boxes@,
                k2 + 1,
            ));
            assert(out@ + enc_boxes(b.boxes@, k2 + 1) =~= base2 + enc_boxes(b.boxes@, 0));
        }
        k2 = k2 + 1;
    }
    proof {
        assert(out@ =~= old(out)@ + enc_board(b.model()));
    }
}

/// Flatten a whole snapshot to its word stream.
pub fn encode_core(s: &StateCore) -> (out: Vec<u32>)
    requires
        s.player.history@.len() <= u32::MAX,
        forall|i: int|
            0 <= i < s.enemies@.len() ==> (#[trigger] s.enemies@[i]).history@.len() <= u32::MAX,
        s.enemies@.len() <= u32::MAX,
        s.board.tiles@.len() <= u32::MAX,
        s.board.junctions@.len() <= u32::MAX,
        s.board.chase_junctions@.len() <= u32::MAX,
        s.board.boxes@.len() <= u32::MAX,
    ensures
        out@ == enc_core(s.model()),
{
    let mut out: Vec<u32> = Vec::new();
    out.push(s.rand.state);
    out.push(s.score as u32);
    out.push(s.lives as u32);
    out.push(s.level as u32);
    out.push(s.jumps as u32);
    out.push(s.chase_timer as u32);
    out.push(s.jump_timer as u32);
    push_mob(&mut out, &s.player);
    out.push(s.enemies.len() as u32);
    let ghost ms = s.model().enemies;
    let ghost base = out@;
    proof {
        assert(ms.len() == s.enemies@.len());
    }
    let mut k: usize = 0;
    while k < s.enemies.len()
        invariant
            0 <= k <= s.enemies@.len(),
            ms == s.model().enemies,
            ms.len() == s.enemies@.len(),
            forall|i: int|
                0 <= i < s.enemies@.len() ==> (#[trigger] s.enemies@[i]).history@.len()
                    <= u32::MAX,
            out@ + enc_mobs(ms, k as int) == base + enc_mobs(ms, 0),
        decreases s.enemies@.len() - k,
    {
        let ghost pre = out@;
        push_mob(&mut out, &s.enemies[k]);
        proof {
            assert(ms[k as int] == s.enemies@[k as int].model());
            assert(enc_mobs(ms, k as int) == enc_mob(ms[k as int]) + enc_mobs(ms, k + 1));
            assert(out@ + enc_mobs(ms, k + 1) =~= pre + enc_mobs(ms, k as int));
        }
        k = k + 1;
    }
    push_board(&mut out, &s.board);
    proof {
        assert(out@ =~= enc_core(s.model()));
    }
    out
}

/// The mathematical content of a configuration.
pub struct ConfigModel {
    pub rand: u32,
    pub board: Seq<Seq<char>>,
    pub player_start: TilePoint,
    pub bg_color: crate::graphics::Color,
    pub player_color: crate::graphics::Color,
    pub unpainted_color: crate::graphics::Color,
    pub painted_color: crate::graphics::Color,
    pub enemy_color: crate::graphics::Color,
    pub inner_painted_color: crate::graphics::Color,
    pub start_lives: i32,
    pub start_jumps: i32,
    pub render_images: bool,
    pub chase_time: i32,
    pub chase_score_bonus: i32,
    pub jump_time: i32,
    pub box_bonus: i32,
    pub default_board_bugs: bool,
    pub enemies: Seq<MovementAI>,
    pub history_limit: u32,
    pub enemy_starting_speed: i32,
    pub player_speed: i32,
}

impl crate::amidar::Amidar {
    /// This configuration's mathematical content.
    pub open spec fn model(self) -> ConfigModel {
        ConfigModel {
            rand: self.rand.state,
            board: self.board.deep_view(),
            player_start: self.player_start,
            bg_color: self.bg_color,
            player_color: self.player_color,
            unpainted_color: self.unpainted_color,
            painted_color: self.painted_color,
            enemy_color: self.enemy_color,
            inner_painted_color: self.inner_painted_color,
            start_lives: self.start_lives,
            start_jumps: self.start_jumps,
            render_images: self.render_images,
            chase_time: self.chase_time,
            chase_score_bonus: self.chase_score_bonus,
            jump_time: self.jump_time,
            box_bonus: self.box_bonus,
            default_board_bugs: self.default_board_bugs,
            enemies: self.enemies@,
            history_limit: self.history_limit,
            enemy_starting_speed: self.enemy_starting_speed,
            player_speed: self.player_speed,
        }
    }
}

/// A configuration whose board rows use the layout alphabet only and whose
/// counts fit one word: the configurations the codec covers.
pub open spec fn spec_config_model_valid(m: ConfigModel) -> bool {
    &&& m.board.len() <= u32::MAX
    &&& forall|y: int| 0 <= y < m.board.len() ==> (#[trigger] m.board[y]).len() <= u32::MAX
    &&& forall|y: int, x: int|
        0 <= y < m.board.len() && 0 <= x < m.board[y].len()
            ==> crate::board::spec_tile_char(#[trigger] m.board[y][x]) is Some
    &&& m.enemies.len() <= u32::MAX
}

/// A color as three words.
pub open spec fn enc_color(c: crate::graphics::Color) -> Seq<u32> {
    seq![c.r as u32, c.g as u32, c.b as u32]
}

/// A layout row: a count word, then one word per character's code point.
pub open spec fn enc_row(s: Seq<char>) -> Seq<u32> {
    seq![s.len() as u32] + Seq::new(s.len(), |i: int| s[i] as u32)
}

/// The layout rows from index `y` on, concatenated.
pub open spec fn enc_rows(rows: Seq<Seq<char>>, y: int) -> Seq<u32>
    decreases rows.len() - y,
{
    if y < 0 || y >= rows.len() {
        Seq::empty()
    } else {
        enc_row(rows[y]) + enc_rows(rows, y + 1)
    }
}

/// The behaviours from index `i` on, concatenated.
pub open spec fn enc_ais(ais: Seq<MovementAI>, i: int) -> Seq<u32>
    decreases ais.len() - i,
{
    if i < 0 || i >= ais.len() {
        Seq::empty()
    } else {
        enc_ai(ais[i]) + enc_ais(ais, i + 1)
    }
}

/// A whole configuration as a word stream.
pub open spec fn enc_config(m: ConfigModel) -> Seq<u32> {
    seq![m.rand, m.board.len() as u32] + enc_rows(m.board, 0) + enc_tp(m.player_start) + enc_color(
        m.bg_color,
    ) + enc_color(m.player_color) + enc_color(m.unpainted_color) + enc_color(m.painted_color)
        + enc_color(m.enemy_color) + enc_color(m.inner_painted_color) + seq![
        m.start_lives as u32,
        m.start_jumps as u32,
        enc_bool(m.render_images),
        m.chase_time as u32,
        m.chase_score_bonus as u32,
        m.jump_time as u32,
        m.box_bonus as u32,
        enc_bool(m.default_board_bugs),
        m.enemies.len() as u32,
    ] + enc_ais(m.enemies, 0) + seq![
        m.history_limit,
        m.enemy_starting_speed as u32,
        m.player_speed as u32,
    ]
}

/// Read a layout character: only the layout alphabet's code points decode.
pub open spec fn dec_layout_char(v: u32) -> Option<char> {
    if v == 32 {
        Some(' ')
    } else if v == 61 {
        Some('=')
    } else if v == 99 {
        Some('c')
    } else if v == 112 {
        Some('p')
    } else {
        None
    }
}

/// Read `n` layout characters.
pub open spec fn dec_layout_chars(t: Seq<u32>, i: int, n: nat) -> Option<(Seq<char>, int)>
    decreases n,
{
    if n == 0 {
        Some((Seq::empty(), i))
    } else if 0 <= i < t.len() {
        match dec_layout_char(t[i]) {
            Option::Some(c) => match dec_layout_chars(t, i + 1, (n - 1) as nat) {
                Option::Some((rest, j)) => Some((seq![c] + rest, j)),
                Option::None => None,
            },
            Option::None => None,
        }
    } else {
        None
    }
}

/// Read one layout row.
pub open spec fn dec_row(t: Seq<u32>, i: int) -> Option<(Seq<char>, int)> {
    if 0 <= i < t.len() {
        dec_layout_chars(t, i + 1, t[i] as nat)
    } else {
        None
    }
}

/// Read `n` layout rows.
pub open spec fn dec_rows(t: Seq<u32>, i: int, n: nat) -> Option<(Seq<Seq<char>>, int)>
    decreases n,
{
    if n == 0 {
        Some((Seq::empty(), i))
    } else {
        match dec_row(t, i) {
            Option::Some((row, j)) => match dec_rows(t, j, (n - 1) as nat) {
                Option::Some((rest, j2)) => Some((seq![row] + rest, j2)),
                Option::None => None,
            },
            Option::None => None,
        }
    }
}

/// Read a color.
pub open spec fn dec_color(t: Seq<u32>, i: int) -> Option<(crate::graphics::Color, int)> {
    if 0 <= i && i + 3 <= t.len() && t[i] <= 255 && t[i + 1] <= 255 && t[i + 2] <= 255 {
        Some(
            (
                crate::graphics::Color { r: t[i] as u8, g: t[i + 1] as u8, b: t[i + 2] as u8 },
                i + 3,
            ),
        )
    } else {
        None
    }
}

/// Read `n` behaviours.
pub open spec fn dec_ais(t: Seq<u32>, i: int, n: nat) -> Option<(Seq<MovementAI>, int)>
    decreases n,
{
    if n == 0 {
        Some((Seq::empty(), i))
    } else {
        match dec_ai(t, i) {
            Option::Some((ai, j)) => match dec_ais(t, j, (n - 1) as nat) {
                Option::Some((rest, j2)) => Some((seq![ai] + rest, j2)),
                Option::None => None,
            },
            Option::None => None,
        }
    }
}

/// Read a whole configuration.
pub open spec fn dec_config(t: Seq<u32>, i: int) -> Option<(ConfigModel, int)> {
    if 0 <= i && i + 2 <= t.len() {
        match dec_rows(t, i + 2, t[i + 1] as nat) {
            Option::Some((board, j)) => match dec_tp(t, j) {
                Option::Some((player_start, j2)) => match dec_colors6(t, j2) {
                    Option::Some((cs, j3)) => if j3 + 9 <= t.len() {
                        let n = t[j3 + 8];
                        match dec_ais(t, j3 + 9, n as nat) {
                            Option::Some((enemies, j4)) => if j4 + 3 <= t.len() {
                                Some(
                                    (
                                        ConfigModel {
                                            rand: t[i],
                                            board,
                                            player_start,
                                            bg_color: cs.0,
                                            player_color: cs.1,
                                            unpainted_color: cs.2,
                                            painted_color: cs.3,
                                            enemy_color: cs.4,
                                            inner_painted_color: cs.5,
                                            start_lives: t[j3] as i32,
                                            start_jumps: t[j3 + 1] as i32,
                                            render_images: t[j3 + 2] == 1,
                                            chase_time: t[j3 + 3] as i32,
                                            chase_score_bonus: t[j3 + 4] as i32,
                                            jump_time: t[j3 + 5] as i32,
                                            box_bonus: t[j3 + 6] as i32,
                                            default_board_bugs: t[j3 + 7] == 1,
                                            enemies,
                                            history_limit: t[j4],
                                            enemy_starting_speed: t[j4 + 1] as i32,
                                            player_speed: t[j4 + 2] as i32,
                                        },
                                        j4 + 3,
                                    ),
                                )
                            } else {
                                None
                            },
                            Option::None => None,
                        }
                    } else {
                        None
                    },
                    Option::None => None,
                },
                Option::None => None,
            },
            Option::None => None,
        }
    } else {
        None
    }
}

/// Read the six palette colors.
pub open spec fn dec_colors6(t: Seq<u32>, i: int) -> Option<
    (
        (
            crate::graphics::Color,
            crate::graphics::Color,
            crate::graphics::Color,
            crate::graphics::Color,
            crate::graphics::Color,
            crate::graphics::Color,
        ),
        int,
    ),
> {
    match dec_color(t, i) {
        Option::Some((c0, j0)) => match dec_color(t, j0) {
            Option::Some((c1, j1)) => match dec_color(t, j1) {
                Option::Some((c2, j2)) => match dec_color(t, j2) {
                    Option::Some((c3, j3)) => match dec_color(t, j3) {
                        Option::Some((c4, j4)) => match dec_color(t, j4) {
                            Option::Some((c5, j5)) => Some(((c0, c1, c2, c3, c4, c5), j5)),
                            Option::None => None,
                        },
                        Option::None => None,
                    },
                    Option::None => None,
                },
                Option::None => None,
            },
            Option::None => None,
        },
        Option::None => None,
    }
}

/// A layout character's code point reads back as the character.
proof fn lemma_rt_layout_char(c: char)
    requires
        crate::board::spec_tile_char(c) is Some,
    ensures
        dec_layout_char(c as u32) == Some(c),
{
}

/// Decoding the encoding of a layout row yields it back.
proof fn lemma_rt_row(s: Seq<char>, t: Seq<u32>, i: int)
    requires
        0 <= i,
        s.len() <= u32::MAX,
        forall|x: int| 0 <= x < s.len() ==> crate::board::spec_tile_char(#[trigger] s[x]) is Some,
        i + enc_row(s).len() <= t.len(),
        t.subrange(i, i + enc_row(s).len()) == enc_row(s),
    ensures
        dec_row(t, i) == Some((s, i + 1 + s.len())),
{
    lemma_sub_index(t, i, enc_row(s), 0);
    assert forall|x: int| 0 <= x < s.len() implies t[i + 1 + x] == #[trigger] s[x] as u32 by {
        lemma_sub_index(t, i, enc_row(s), 1 + x);
        assert(enc_row(s)[1 + x] == s[x] as u32);
    }
    lemma_rt_layout_chars(s, 0, t, i + 1);
    assert(s.skip(0) =~= s);
}

/// Decoding the encoded characters of a row's suffix yields it back.
proof fn lemma_rt_layout_chars(s: Seq<char>, k: int, t: Seq<u32>, i: int)
    requires
        0 <= i,
        0 <= k <= s.len(),
        forall|x: int| 0 <= x < s.len() ==> crate::board::spec_tile_char(#[trigger] s[x]) is Some,
        i + s.len() - k <= t.len(),
        forall|x: int| k <= x < s.len() ==> t[i + x - k] == #[trigger] s[x] as u32,
    ensures
        dec_layout_chars(t, i, (s.len() - k) as nat) == Some((s.skip(k), i + s.len() - k)),
    decreases s.len() - k,
{
    if k == s.len() {
        assert(s.skip(k) =~= Seq::<char>::empty());
    } else {
        lemma_rt_layout_char(s[k]);
        assert(t[i] == s[k] as u32);
        lemma_rt_layout_chars(s, k + 1, t, i + 1);
        assert(seq![s[k]] + s.skip(k + 1) =~= s.skip(k));
    }
}

/// The row encoding from position `y` equals the tail's, shifted.
proof fn lemma_enc_rows_tail(rows: Seq<Seq<char>>, y: int)
    requires
        1 <= y <= rows.len(),
    ensures
        enc_rows(rows, y) == enc_rows(rows.skip(1), y - 1),
    decreases rows.len() - y,
{
    if y < rows.len() {
        lemma_enc_rows_tail(rows, y + 1);
        assert(rows.skip(1)[y - 1] == rows[y]);
    }
}

/// Decoding the encodings of the layout rows yields them back.
proof fn lemma_rt_rows(rows: Seq<Seq<char>>, t: Seq<u32>, i: int)
    requires
        0 <= i,
        forall|y: int| 0 <= y < rows.len() ==> (#[trigger] rows[y]).len() <= u32::MAX,
        forall|y: int, x: int|
            0 <= y < rows.len() && 0 <= x < rows[y].len() ==> crate::board::spec_tile_char(
                #[trigger] rows[y][x],
            ) is Some,
        i + enc_rows(rows, 0).len() <= t.len(),
        t.subrange(i, i + enc_rows(rows, 0).len()) == enc_rows(rows, 0),
    ensures
        dec_rows(t, i, rows.len()) == Some((rows, i + enc_rows(rows, 0).len())),
    decreases rows.len(),
{
    if rows.len() == 0 {
        assert(rows =~= Seq::<Seq<char>>::empty());
    } else {
        assert(enc_rows(rows, 0) == enc_row(rows[0]) + enc_rows(rows, 1));
        lemma_enc_rows_tail(rows, 1);
        lemma_sub_split(t, i, enc_row(rows[0]), enc_rows(rows.skip(1), 0));
        assert forall|x: int| 0 <= x < rows[0].len() implies t[i + 1 + x] == #[trigger] rows[0][x]
            as u32 by {
            lemma_sub_index(t, i, enc_row(rows[0]), 1 + x);
            assert(enc_row(rows[0])[1 + x] == rows[0][x] as u32);
        }
        assert(rows[0].skip(0) =~= rows[0]);
        lemma_rt_row(rows[0], t, i);
        assert forall|y: int, x: int|
            0 <= y < rows.skip(1).len() && 0 <= x < rows.skip(1)[y].len() implies
            crate::board::spec_tile_char(#[trigger] rows.skip(1)[y][x]) is Some by {
            assert(rows.skip(1)[y] == rows[y + 1]);
        }
        lemma_rt_rows(rows.skip(1), t, i + enc_row(rows[0]).len());
        assert(seq![rows[0]] + rows.skip(1) =~= rows);
    }
}

/// Decoding the encoding of a color yields it back.
proof fn lemma_rt_color(c: crate::graphics::Color, t: Seq<u32>, i: int)
    requires
        0 <= i,
        i + 3 <= t.len(),
        t.subrange(i, i + 3) == enc_color(c),
    ensures
        dec_color(t, i) == Some((c, i + 3)),
{
    lemma_sub_index(t, i, enc_color(c), 0);
    lemma_sub_index(t, i, enc_color(c), 1);
    lemma_sub_index(t, i, enc_color(c), 2);
}

/// The behaviour encoding from position `i` equals the tail's, shifted.
proof fn lemma_enc_ais_tail(ais: Seq<MovementAI>, i: int)
    requires
        1 <= i <= ais.len(),
    ensures
        enc_ais(ais, i) == enc_ais(ais.skip(1), i - 1),
    decreases ais.len() - i,
{
    if i < ais.len() {
        lemma_enc_ais_tail(ais, i + 1);
        assert(ais.skip(1)[i - 1] == ais[i]);
    }
}

/// Decoding the encodings of the behaviour list yields it back.
proof fn lemma_rt_ais(ais: Seq<MovementAI>, t: Seq<u32>, i: int)
    requires
        0 <= i,
        i + enc_ais(ais, 0).len() <= t.len(),
        t.subrange(i, i + enc_ais(ais, 0).len()) == enc_ais(ais, 0),
    ensures
        dec_ais(t, i, ais.len()) == Some((ais, i + enc_ais(ais, 0).len())),
    decreases ais.len(),
{
    if ais.len() == 0 {
        assert(ais =~= Seq::<MovementAI>::empty());
    } else {
        assert(enc_ais(ais, 0) == enc_ai(ais[0]) + enc_ais(ais, 1));
        lemma_enc_ais_tail(ais, 1);
        lemma_sub_split(t, i, enc_ai(ais[0]), enc_ais(ais.skip(1), 0));
        lemma_rt_ai(ais[0], t, i);
        lemma_rt_ais(ais.skip(1), t, i + enc_ai(ais[0]).len());
        assert(seq![ais[0]] + ais.skip(1) =~= ais);
    }
}

/// LAW — the configuration codec round-trips: decoding the encoding of any
/// coverable configuration yields exactly that configuration.
pub proof fn lemma_config_round_trip(m: ConfigModel, t: Seq<u32>, i: int)
    requires
        0 <= i,
        spec_config_model_valid(m),
        i + enc_config(m).len() <= t.len(),
        t.subrange(i, i + enc_config(m).len()) == enc_config(m),
    ensures
        dec_config(t, i) == Some((m, i + enc_config(m).len())),
{
    let hd = seq![m.rand, m.board.len() as u32];
    let p1 = hd + enc_rows(m.board, 0);
    let p2 = p1 + enc_tp(m.player_start);
    let p3 = p2 + enc_color(m.bg_color);
    let p4 = p3 + enc_color(m.player_color);
    let p5 = p4 + enc_color(m.unpainted_color);
    let p6 = p5 + enc_color(m.painted_color);
    let p7 = p6 + enc_color(m.enemy_color);
    let p8 = p7 + enc_color(m.inner_painted_color);
    let scal = seq![
        m.start_lives as u32,
        m.start_jumps as u32,
        enc_bool(m.render_images),
        m.chase_time as u32,
        m.chase_score_bonus as u32,
        m.jump_time as u32,
        m.box_bonus as u32,
        enc_bool(m.default_board_bugs),
        m.enemies.len() as u32,
    ];
    let p9 = p8 + scal;
    let p10 = p9 + enc_ais(m.enemies, 0);
    let tail = seq![m.history_limit, m.enemy_starting_speed as u32, m.player_speed as u32];
    lemma_sub_split(t, i, p10, tail);
    lemma_sub_split(t, i, p9, enc_ais(m.enemies, 0));
    lemma_sub_split(t, i, p8, scal);
    lemma_sub_split(t, i, p7, enc_color(m.inner_painted_color));
    lemma_sub_split(t, i, p6, enc_color(m.enemy_color));
    lemma_sub_split(t, i, p5, enc_color(m.painted_color));
    lemma_sub_split(t, i, p4, enc_color(m.unpainted_color));
    lemma_sub_split(t, i, p3, enc_color(m.player_color));
    lemma_sub_split(t, i, p2, enc_color(m.bg_color));
    lemma_sub_split(t, i, p1, enc_tp(m.player_start));
    lemma_sub_split(t, i, hd, enc_rows(m.board, 0));
    lemma_sub_index(t, i, hd, 0);
    lemma_sub_index(t, i, hd, 1);
    lemma_rt_rows(m.board, t, i + 2);
    let j = i + 2 + enc_rows(m.board, 0).len();
    lemma_rt_tp(m.player_start, t, j);
    lemma_rt_color(m.bg_color, t, j + 2);
    lemma_rt_color(m.player_color, t, j + 5);
    lemma_rt_color(m.unpainted_color, t, j + 8);
    lemma_rt_color(m.painted_color, t, j + 11);
    lemma_rt_color(m.enemy_color, t, j + 14);
    lemma_rt_color(m.inner_painted_color, t, j + 17);
    let j3 = j + 20;
    lemma_sub_index(t, j3, scal, 0);
    lemma_sub_index(t, j3, scal, 1);
    lemma_sub_index(t, j3, scal, 2);
    lemma_sub_index(t, j3, scal, 3);
    lemma_sub_index(t, j3, scal, 4);
    lemma_sub_index(t, j3, scal, 5);
    lemma_sub_index(t, j3, scal, 6);
    lemma_sub_index(t, j3, scal, 7);
    lemma_sub_index(t, j3, scal, 8);
    lemma_i32_round_trip(m.start_lives);
    lemma_i32_round_trip(m.start_jumps);
    lemma_i32_round_trip(m.chase_time);
    lemma_i32_round_trip(m.chase_score_bonus);
    lemma_i32_round_trip(m.jump_time);
    lemma_i32_round_trip(m.box_bonus);
    lemma_rt_ais(m.enemies, t, j3 + 9);
    let j4 = j3 + 9 + enc_ais(m.enemies, 0).len();
    lemma_sub_index(t, j4, tail, 0);
    lemma_sub_index(t, j4, tail, 1);
    lemma_sub_index(t, j4, tail, 2);
    lemma_i32_round_trip(m.enemy_starting_speed);
    lemma_i32_round_trip(m.player_speed);
}

/// Read a tile point.
fn read_tp(t: &Vec<u32>, i: usize) -> (r: Option<(TilePoint, usize)>)
    ensures
        match r {
            Option::Some((x, j)) => dec_tp(t@, i as int) == Some((x, j as int)),
            Option::None => dec_tp(t@, i as int) is None,
        },
{
    if i < t.len() && t.len() - i >= 2 {
        Some((TilePoint { tx: t[i] as i32, ty: t[i + 1] as i32 }, i + 2))
    } else {
        None
    }
}

/// Read a direction tag.
fn read_dir(t: &Vec<u32>, i: usize) -> (r: Option<(Direction, usize)>)
    ensures
        match r {
            Option::Some((x, j)) => dec_dir(t@, i as int) == Some((x, j as int)),
            Option::None => dec_dir(t@, i as int) is None,
        },
{
    if i < t.len() {
        let v = t[i];
        if v == 0 {
            Some((Direction::Up, i + 1))
        } else if v == 1 {
            Some((Direction::Down, i + 1))
        } else if v == 2 {
            Some((Direction::Left, i + 1))
        } else if v == 3 {
            Some((Direction::Right, i + 1))
        } else {
            None
        }
    } else {
        None
    }
}

/// Read a boolean word.
fn read_bool(t: &Vec<u32>, i: usize) -> (r: Option<(bool, usize)>)
    ensures
        match r {
            Option::Some((x, j)) => dec_bool(t@, i as int) == Some((x, j as int)),
            Option::None => dec_bool(t@, i as int) is None,
        },
{
    if i < t.len() {
        let v = t[i];
        if v == 0 {
            Some((false, i + 1))
        } else if v == 1 {
            Some((true, i + 1))
        } else {
            None
        }
    } else {
        None
    }
}

/// Read an optional tile point.
fn read_opt_tp(t: &Vec<u32>, i: usize) -> (r: Option<(Option<TilePoint>, usize)>)
    ensures
        match r {
            Option::Some((x, j)) => dec_opt_tp(t@, i as int) == Some((x, j as int)),
            Option::None => dec_opt_tp(t@, i as int) is None,
        },
{
    if i < t.len() {
        let v = t[i];
        if v == 0 {
            Some((None, i + 1))
        } else if v == 1 {
            match read_tp(t, i + 1) {
                Some((p, j)) => Some((Some(p), j)),
                None => None,
            }
        } else {
            None
        }
    } else {
        None
    }
}

/// Read a behaviour.
fn read_ai(t: &Vec<u32>, i: usize) -> (r: Option<(MovementAI, usize)>)
    ensures
        match r {
            Option::Some((x, j)) => dec_ai(t@, i as int) == Some((x, j as int)),
            Option::None => dec_ai(t@, i as int) is None,
        },
{
    if i >= t.len() {
        return None;
    }
    let tag = t[i];
    let j = i + 1;
    if tag == 0 {
        Some((MovementAI::Player, j))
    } else if tag == 1 {
        if j < t.len() && t.len() - j >= 2 {
            Some((MovementAI::EnemyLookupAI { next: t[j], default_route_index: t[j + 1] }, j + 2))
        } else {
            None
        }
    } else if tag == 2 {
        match read_tp(t, j) {
            Some((start, j2)) => Some((MovementAI::EnemyPerimeterAI { start }, j2)),
            None => None,
        }
    } else if tag == 3 {
        match read_dir(t, j) {
            Some((vert, j2)) => match read_dir(t, j2) {
                Some((horiz, j3)) => match read_dir(t, j3) {
                    Some((start_vert, j4)) => match read_dir(t, j4) {
                        Some((start_horiz, j5)) => match read_tp(t, j5) {
                            Some((start, j6)) => Some((
                                MovementAI::EnemyAmidarMvmt {
                                    vert,
                                    horiz,
                                    start_vert,
                                    start_horiz,
                                    start,
                                },
                                j6,
                            )),
                            None => None,
                        },
                        None => None,
                    },
                    None => None,
                },
                None => None,
            },
            None => None,
        }
    } else if tag == 4 {
        match read_tp(t, j) {
            Some((start, j2)) => match read_dir(t, j2) {
                Some((start_dir, j3)) => match read_dir(t, j3) {
                    Some((dir, j4)) => Some((
                        MovementAI::EnemyRandomMvmt { start, start_dir, dir },
                        j4,
                    )),
                    None => None,
                },
                None => None,
            },
            None => None,
        }
    } else if tag == 5 {
        match read_tp(t, j) {
            Some((start, j2)) => match read_dir(t, j2) {
                Some((start_dir, j3)) => {
                    if j3 >= t.len() {
                        return None;
                    }
                    let vd = t[j3] as i32;
                    match read_dir(t, j3 + 1) {
                        Some((dir, j5)) => match read_opt_tp(t, j5) {
                            Some((player_seen, j6)) => Some((
                                MovementAI::EnemyTargetPlayer {
                                    start,
                                    start_dir,
                                    vision_distance: vd,
                                    dir,
                                    player_seen,
                                },
                                j6,
                            )),
                            None => None,
                        },
                        None => None,
                    }
                },
                None => None,
            },
            None => None,
        }
    } else {
        None
    }
}

/// Read a counted word list.
fn read_u32s(t: &Vec<u32>, i: usize) -> (r: Option<(Vec<u32>, usize)>)
    ensures
        match r {
            Option::Some((x, j)) => dec_u32s(t@, i as int) == Some((x@, j as int)),
            Option::None => dec_u32s(t@, i as int) is None,
        },
{
    if i >= t.len() {
        return None;
    }
    let n = t[i];
    if (n as usize) > t.len() - i - 1 {
        return None;
    }
    let n = n as usize;
    let mut out: Vec<u32> = Vec::new();
    let mut k: usize = 0;
    while k < n
        invariant
            0 <= k <= n,
            i < t@.len(),
            i + 1 + n <= t@.len(),
            t@.len() <= usize::MAX,
            out@ == t@.subrange(i + 1, i + 1 + k),
        decreases n - k,
    {
        out.push(t[i + 1 + k]);
        proof {
            assert(out@ =~= t@.subrange(i + 1, i + 1 + k + 1));
        }
        k = k + 1;
    }
    Some((out, i + 1 + n))
}

/// Read a mover.
fn read_mob(t: &Vec<u32>, i: usize) -> (r: Option<(Mob, usize)>)
    ensures
        match r {
            Option::Some((x, j)) => dec_mob(t@, i as int) == Some((x.model(), j as int)),
            Option::None => dec_mob(t@, i as int) is None,
        },
{
    let (ai, j) = match read_ai(t, i) {
        Some(p) => p,
        None => {
            return None;
        },
    };
    if j >= t.len() || t.len() - j < 4 {
        return None;
    }
    let position = WorldPoint { x: t[j] as i32, y: t[j + 1] as i32 };
    let (caught, _) = match read_bool(t, j + 2) {
        Some(p) => p,
        None => {
            return None;
        },
    };
    let speed = t[j + 3] as i32;
    let (step, j2) = match read_opt_tp(t, j + 4) {
        Some(p) => p,
        None => {
            return None;
        },
    };
    let (history, j3) = match read_u32s(t, j2) {
        Some(p) => p,
        None => {
            return None;
        },
    };
    Some((Mob { ai, position, caught, speed, step, history }, j3))
}

/// Read `n` movers.
fn read_mobs(t: &Vec<u32>, i: usize, n: u32) -> (r: Option<(Vec<Mob>, usize)>)
    ensures
        match r {
            Option::Some((x, j)) => dec_mobs(t@, i as int, n as nat) == Some((
                Seq::new(x@.len(), |p: int| x@[p].model()),
                j as int,
            )) && x@.len() == n,
            Option::None => dec_mobs(t@, i as int, n as nat) is None,
        },
{
    let mut out: Vec<Mob> = Vec::new();
    let mut cur: usize = i;
    let mut k: u32 = 0;
    while k < n
        invariant
            0 <= k <= n,
            out@.len() == k,
            dec_mobs(t@, i as int, n as nat) == (match dec_mobs(t@, cur as int, (n - k) as nat) {
                Option::Some((rest, j)) => Some((
                    Seq::new(out@.len(), |p: int| out@[p].model()) + rest,
                    j,
                )),
                Option::None => None::<(Seq<MobModel>, int)>,
            }),
        decreases n - k,
    {
        let (m, j) = match read_mob(t, cur) {
            Some(p) => p,
            None => {
                return None;
            },
        };
        out.push(m);
        proof {
            assert(Seq::new(out@.len(), |p: int| out@[p].model()) =~= Seq::new(
                (out@.len() - 1) as nat,
                |p: int| out@[p].model(),
            ).push(m.model()));
            assert forall|rest: Seq<MobModel>|
                true implies Seq::new((out@.len() - 1) as nat, |p: int| out@[p].model()).push(
                m.model(),
            ) + rest =~= Seq::new((out@.len() - 1) as nat, |p: int| out@[p].model()) + (seq![
                m.model(),
            ] + rest) by {}
        }
        cur = j;
        k = k + 1;
    }
    Some((out, cur))
}

/// Read `n` tiles.
fn read_tiles(t: &Vec<u32>, i: usize, n: u32) -> (r: Option<(Vec<Tile>, usize)>)
    ensures
        match r {
            Option::Some((x, j)) => dec_tiles(t@, i as int, n as nat) == Some((x@, j as int))
                && x@.len() == n,
            Option::None => dec_tiles(t@, i as int, n as nat) is None,
        },
{
    let mut out: Vec<Tile> = Vec::new();
    let mut cur: usize = i;
    let mut k: u32 = 0;
    while k < n
        invariant
            0 <= k <= n,
            out@.len() == k,
            dec_tiles(t@, i as int, n as nat) == (match dec_tiles(t@, cur as int, (n - k) as nat) {
                Option::Some((rest, j)) => Some((out@ + rest, j)),
                Option::None => None::<(Seq<Tile>, int)>,
            }),
        decreases n - k,
    {
        if cur >= t.len() {
            return None;
        }
        let v = t[cur];
        let tile = if v == 0 {
            Tile::Empty
        } else if v == 1 {
            Tile::Unpainted
        } else if v == 2 {
            Tile::ChaseMarker
        } else if v == 3 {
            Tile::Painted
        } else {
            return None;
        };
        out.push(tile);
        proof {
            assert forall|rest: Seq<Tile>|
                true implies out@ + rest =~= out@.take(out@.len() - 1) + (seq![tile] + rest) by {
                assert(out@.take(out@.len() - 1) =~= out@.drop_last());
            }
            assert(out@.take(out@.len() - 1) =~= out@.drop_last());
        }
        cur = cur + 1;
        k = k + 1;
    }
    Some((out, cur))
}

/// Read one box.
fn read_box(t: &Vec<u32>, i: usize) -> (r: Option<(GridBox, usize)>)
    ensures
        match r {
            Option::Some((x, j)) => dec_box(t@, i as int) == Some((x, j as int)),
            Option::None => dec_box(t@, i as int) is None,
        },
{
    let (top_left, j) = match read_tp(t, i) {
        Some(p) => p,
        None => {
            return None;
        },
    };
    let (bottom_right, j2) = match read_tp(t, j) {
        Some(p) => p,
        None => {
            return None;
        },
    };
    let (painted, j3) = match read_bool(t, j2) {
        Some(p) => p,
        None => {
            return None;
        },
    };
    let (triggers_chase, j4) = match read_bool(t, j3) {
        Some(p) => p,
        None => {
            return None;
        },
    };
    Some((GridBox { top_left, bottom_right, painted, triggers_chase }, j4))
}

/// Read `n` boxes.
fn read_boxes(t: &Vec<u32>, i: usize, n: u32) -> (r: Option<(Vec<GridBox>, usize)>)
    ensures
        match r {
            Option::Some((x, j)) => dec_boxes(t@, i as int, n as nat) == Some((x@, j as int))
                && x@.len() == n,
            Option::None => dec_boxes(t@, i as int, n as nat) is None,
        },
{
    let mut out: Vec<GridBox> = Vec::new();
    let mut cur: usize = i;
    let mut k: u32 = 0;
    while k < n
        invariant
            0 <= k <= n,
            out@.len() == k,
            dec_boxes(t@, i as int, n as nat) == (match dec_boxes(t@, cur as int, (n - k) as nat) {
                Option::Some((rest, j)) => Some((out@ + rest, j)),
                Option::None => None::<(Seq<GridBox>, int)>,
            }),
        decreases n - k,
    {
        let (b, j) = match read_box(t, cur) {
            Some(p) => p,
            None => {
                return None;
            },
        };
        out.push(b);
        proof {
            assert forall|rest: Seq<GridBox>|
                true implies out@ + rest =~= out@.drop_last() + (seq![b] + rest) by {}
        }
        cur = j;
        k = k + 1;
    }
    Some((out, cur))
}

/// Read a board.
fn read_board(t: &Vec<u32>, i: usize) -> (r: Option<(Board, usize)>)
    ensures
        match r {
            Option::Some((x, j)) => dec_board(t@, i as int) == Some((x.model(), j as int)),
            Option::None => dec_board(t@, i as int) is None,
        },
{
    if i >= t.len() || t.len() - i < 3 {
        return None;
    }
    let width = t[i];
    let height = t[i + 1];
    let ntiles = t[i + 2];
    let (tiles, j) = match read_tiles(t, i + 3, ntiles) {
        Some(p) => p,
        None => {
            return None;
        },
    };
    let (junctions, j2) = match read_u32s(t, j) {
        Some(p) => p,
        None => {
            return None;
        },
    };
    let (chase_junctions, j3) = match read_u32s(t, j2) {
        Some(p) => p,
        None => {
            return None;
        },
    };
    if j3 >= t.len() {
        return None;
    }
    let nboxes = t[j3];
    let (boxes, j4) = match read_boxes(t, j3 + 1, nboxes) {
        Some(p) => p,
        None => {
            return None;
        },
    };
    Some((Board { tiles, width, height, junctions, chase_junctions, boxes }, j4))
}

/// Flatten a configuration to its word stream; refuses configurations
/// outside the codec's coverage (a board row character outside the layout
/// alphabet, or an oversized count).
pub fn encode_config(c: &crate::amidar::Amidar) -> (r: Option<Vec<u32>>)
    ensures
        match r {
            Option::Some(v) => v@ == enc_config(c.model()) && spec_config_model_valid(c.model()),
            Option::None => !spec_config_model_valid(c.model()),
        },
{
    let ghost m = c.model();
    if c.board.len() > u32::MAX as usize || c.enemies.len() > u32::MAX as usize {
        return None;
    }
    let mut out: Vec<u32> = Vec::new();
    out.push(c.rand.state);
    out.push(c.board.len() as u32);
    let ghost base = out@;
    let mut y: usize = 0;
    while y < c.board.len()
        invariant
            0 <= y <= c.board@.len(),
            m == c.model(),
            m.board.len() == c.board@.len(),
            out@ + enc_rows(m.board, y as int) == base + enc_rows(m.board, 0),
            forall|y2: int| 0 <= y2 < y ==> (#[trigger] m.board[y2]).len() <= u32::MAX,
            forall|y2: int, x: int|
                0 <= y2 < y && 0 <= x < m.board[y2].len() ==> crate::board::spec_tile_char(
                    #[trigger] m.board[y2][x],
                ) is Some,
        decreases c.board@.len() - y,
    {
        let row = c.board[y].as_str();
        let n = row.unicode_len();
        if n > u32::MAX as usize {
            return None;
        }
        out.push(n as u32);
        let ghost rowbase = out@;
        let mut x: usize = 0;
        while x < n
            invariant
                0 <= x <= n,
                0 <= y < c.board@.len(),
                m == c.model(),
                row@ == m.board[y as int],
                n == row@.len(),
                out@ == rowbase + Seq::new(x as nat, |p: int| row@[p] as u32),
                forall|x2: int|
                    0 <= x2 < x ==> crate::board::spec_tile_char(#[trigger] row@[x2]) is Some,
            decreases n - x,
        {
            let ch = row.get_char(x);
            if !(ch == ' ' || ch == '=' || ch == 'c' || ch == 'p') {
                proof {
                    assert(crate::board::spec_tile_char(m.board[y as int][x as int]) is None);
                }
                return None;
            }
            out.push(ch as u32);
            proof {
                assert(out@ =~= rowbase + Seq::new((x + 1) as nat, |p: int| row@[p] as u32));
            }
            x = x + 1;
        }
        proof {
            assert(Seq::new(n as nat, |p: int| row@[p] as u32) =~= Seq::new(
                m.board[y as int].len(),
                |p: int| m.board[y as int][p] as u32,
            ));
            assert(enc_rows(m.board, y as int) == enc_row(m.board[y as int]) + enc_rows(
                m.board,
                y + 1,
            ));
            assert(out@ + enc_rows(m.board, y + 1) =~= base + enc_rows(m.board, 0));
        }
        y = y + 1;
    }
    push_tp(&mut out, &c.player_start);
    push_color(&mut out, &c.bg_color);
    push_color(&mut out, &c.player_color);
    push_color(&mut out, &c.unpainted_color);
    push_color(&mut out, &c.painted_color);
    push_color(&mut out, &c.enemy_color);
    push_color(&mut out, &c.inner_painted_color);
    out.push(c.start_lives as u32);
    out.push(c.start_jumps as u32);
    out.push(if c.render_images {
        1
    } else {
        0
    });
    out.push(c.chase_time as u32);
    out.push(c.chase_score_bonus as u32);
    out.push(c.jump_time as u32);
    out.push(c.box_bonus as u32);
    out.push(if c.default_board_bugs {
        1
    } else {
        0
    });
    out.push(c.enemies.len() as u32);
    let ghost base2 = out@;
    let mut k: usize = 0;
    while k < c.enemies.len()
        invariant
            0 <= k <= c.enemies@.len(),
            m == c.model(),
            m.enemies == c.enemies@,
            out@ + enc_ais(m.enemies, k as int) == base2 + enc_ais(m.enemies, 0),
        decreases c.enemies@.len() - k,
    {
        let ghost pre = out@;
        let ai = c.enemies[k];
        push_ai(&mut out, &ai);
        proof {
            assert(enc_ais(m.enemies, k as int) == enc_ai(m.enemies[k as int]) + enc_ais(
                m.enemies,
                k + 1,
            ));
            assert(out@ + enc_ais(m.enemies, k + 1) =~= pre + enc_ais(m.enemies, k as int));
        }
        k = k + 1;
    }
    out.push(c.history_limit);
    out.push(c.enemy_starting_speed as u32);
    out.push(c.player_speed as u32);
    proof {
        assert(out@ =~= enc_config(m));
    }
    Some(out)
}

/// Append a color.
fn push_color(out: &mut Vec<u32>, c: &crate::graphics::Color)
    ensures
        final(out)@ == old(out)@ + enc_color(*c),
{
    out.push(c.r as u32);
    out.push(c.g as u32);
    out.push(c.b as u32);
    proof {
        assert(out@ =~= old(out)@ + enc_color(*c));
    }
}

/// The one-character text of a layout character.
fn layout_char_str(c: char) -> (r: &'static str)
    requires
        crate::board::spec_tile_char(c) is Some,
    ensures
        r@ == seq![c],
{
    proof {
        reveal_strlit(" ");
        reveal_strlit("=");
        reveal_strlit("c");
        reveal_strlit("p");
    }
    let r = if c == ' ' {
        " "
    } else if c == '=' {
        "="
    } else if c == 'c' {
        "c"
    } else {
        "p"
    };
    proof {
        assert(r@ =~= seq![c]);
    }
    r
}

/// Read one layout row as a string.
fn read_row(t: &Vec<u32>, i: usize) -> (r: Option<(String, usize)>)
    ensures
        match r {
            Option::Some((s, j)) => dec_row(t@, i as int) == Some((s@, j as int)),
            Option::None => dec_row(t@, i as int) is None,
        },
{
    if i >= t.len() {
        return None;
    }
    let n = t[i];
    if (n as usize) > t.len() - i - 1 {
        // walking off the stream always fails; report it without scanning
        proof {
            lemma_layout_chars_need_room(t@, i + 1, n as nat);
        }
        return None;
    }
    let n = n as usize;
    let mut s = String::new();
    let mut x: usize = 0;
    while x < n
        invariant
            0 <= x <= n,
            i < t@.len(),
            i + 1 + n <= t@.len(),
            t@.len() <= usize::MAX,
            n <= u32::MAX,
            t@[i as int] == n as u32,
            dec_layout_chars(t@, i + 1, n as nat) == (match dec_layout_chars(
                t@,
                i + 1 + x,
                (n - x) as nat,
            ) {
                Option::Some((rest, j)) => Some((s@ + rest, j)),
                Option::None => None::<(Seq<char>, int)>,
            }),
        decreases n - x,
    {
        let v = t[i + 1 + x];
        let c = if v == 32 {
            ' '
        } else if v == 61 {
            '='
        } else if v == 99 {
            'c'
        } else if v == 112 {
            'p'
        } else {
            proof {
                assert(dec_layout_char(t@[i + 1 + x]) is None);
                assert(dec_layout_chars(t@, i + 1 + x, (n - x) as nat) is None);
            }
            return None;
        };
        s.append(layout_char_str(c));
        proof {
            assert forall|rest: Seq<char>| true implies s@ + rest =~= s@.drop_last() + (seq![c]
                + rest) by {}
        }
        x = x + 1;
    }
    proof {
        assert(s@ + Seq::<char>::empty() =~= s@);
    }
    Some((s, i + 1 + n))
}

/// Reading more characters than the stream holds fails.
proof fn lemma_layout_chars_need_room(t: Seq<u32>, i: int, n: nat)
    requires
        i + n > t.len(),
        0 <= i,
        n >= 1,
    ensures
        dec_layout_chars(t, i, n) is None,
    decreases n,
{
    if i < t.len() {
        if dec_layout_char(t[i]) is Some {
            assert(n >= 2);
            lemma_layout_chars_need_room(t, i + 1, (n - 1) as nat);
        }
    }
}

/// Read `n` layout rows.
fn read_rows(t: &Vec<u32>, i: usize, n: u32) -> (r: Option<(Vec<String>, usize)>)
    ensures
        match r {
            Option::Some((v, j)) => dec_rows(t@, i as int, n as nat) == Some((
                v.deep_view(),
                j as int,
            )) && v@.len() == n,
            Option::None => dec_rows(t@, i as int, n as nat) is None,
        },
{
    let mut out: Vec<String> = Vec::new();
    let mut cur: usize = i;
    let mut k: u32 = 0;
    while k < n
        invariant
            0 <= k <= n,
            out@.len() == k,
            out.deep_view().len() == k,
            dec_rows(t@, i as int, n as nat) == (match dec_rows(t@, cur as int, (n - k) as nat) {
                Option::Some((rest, j)) => Some((out.deep_view() + rest, j)),
                Option::None => None::<(Seq<Seq<char>>, int)>,
            }),
        decreases n - k,
    {
        let (row, j) = match read_row(t, cur) {
            Some(p) => p,
            None => {
                return None;
            },
        };
        out.push(row);
        proof {
            assert forall|rest: Seq<Seq<char>>| true implies out.deep_view() + rest
                =~= out.deep_view().drop_last() + (seq![out.deep_view().last()] + rest) by {}
            assert(out.deep_view().last() == out@[out@.len() - 1]@);
        }
        cur = j;
        k = k + 1;
    }
    proof {
        assert(out.deep_view() + Seq::<Seq<char>>::empty() =~= out.deep_view());
    }
    Some((out, cur))
}

/// Read a color.
fn read_color(t: &Vec<u32>, i: usize) -> (r: Option<(crate::graphics::Color, usize)>)
    ensures
        match r {
            Option::Some((c, j)) => dec_color(t@, i as int) == Some((c, j as int)),
            Option::None => dec_color(t@, i as int) is None,
        },
{
    if i < t.len() && t.len() - i >= 3 && t[i] <= 255 && t[i + 1] <= 255 && t[i + 2] <= 255 {
        Some(
            (
                crate::graphics::Color { r: t[i] as u8, g: t[i + 1] as u8, b: t[i + 2] as u8 },
                i + 3,
            ),
        )
    } else {
        None
    }
}

/// Read `n` behaviours.
fn read_ais(t: &Vec<u32>, i: usize, n: u32) -> (r: Option<(Vec<MovementAI>, usize)>)
    ensures
        match r {
            Option::Some((v, j)) => dec_ais(t@, i as int, n as nat) == Some((v@, j as int))
                && v@.len() == n,
            Option::None => dec_ais(t@, i as int, n as nat) is None,
        },
{
    let mut out: Vec<MovementAI> = Vec::new();
    let mut cur: usize = i;
    let mut k: u32 = 0;
    while k < n
        invariant
            0 <= k <= n,
            out@.len() == k,
            dec_ais(t@, i as int, n as nat) == (match dec_ais(t@, cur as int, (n - k) as nat) {
                Option::Some((rest, j)) => Some((out@ + rest, j)),
                Option::None => None::<(Seq<MovementAI>, int)>,
            }),
        decreases n - k,
    {
        let (ai, j) = match read_ai(t, cur) {
            Some(p) => p,
            None => {
                return None;
            },
        };
        out.push(ai);
        proof {
            assert forall|rest: Seq<MovementAI>| true implies out@ + rest =~= out@.drop_last() + (
            seq![ai] + rest) by {}
        }
        cur = j;
        k = k + 1;
    }
    proof {
        assert(out@ + Seq::<MovementAI>::empty() =~= out@);
    }
    Some((out, cur))
}

/// Read a whole configuration; the result's mathematical content is exactly
/// what the spec decoder reads.
pub fn decode_config(t: &Vec<u32>, i: usize) -> (r: Option<(crate::amidar::Amidar, usize)>)
    ensures
        match r {
            Option::Some((c, j)) => dec_config(t@, i as int) == Some((c.model(), j as int)),
            Option::None => dec_config(t@, i as int) is None,
        },
{
    if i >= t.len() || t.len() - i < 2 {
        return None;
    }
    let (board, j) = match read_rows(t, i + 2, t[i + 1]) {
        Some(p) => p,
        None => {
            return None;
        },
    };
    let (player_start, j2) = match read_tp(t, j) {
        Some(p) => p,
        None => {
            return None;
        },
    };
    let (bg_color, ja) = match read_color(t, j2) {
        Some(p) => p,
        None => {
            return None;
        },
    };
    let (player_color, jb) = match read_color(t, ja) {
        Some(p) => p,
        None => {
            return None;
        },
    };
    let (unpainted_color, jc) = match read_color(t, jb) {
        Some(p) => p,
        None => {
            return None;
        },
    };
    let (painted_color, jd) = match read_color(t, jc) {
        Some(p) => p,
        None => {
            return None;
        },
    };
    let (enemy_color, je) = match read_color(t, jd) {
        Some(p) => p,
        None => {
            return None;
        },
    };
    let (inner_painted_color, j3) = match read_color(t, je) {
        Some(p) => p,
        None => {
            return None;
        },
    };
    if j3 >= t.len() || t.len() - j3 < 9 {
        return None;
    }
    let (enemies, j4) = match read_ais(t, j3 + 9, t[j3 + 8]) {
        Some(p) => p,
        None => {
            return None;
        },
    };
    if j4 >= t.len() || t.len() - j4 < 3 {
        return None;
    }
    let c = crate::amidar::Amidar {
        rand: Gen { state: t[i] },
        board,
        player_start,
        bg_color,
        player_color,
        unpainted_color,
        painted_color,
        enemy_color,
        inner_painted_color,
        start_lives: t[j3] as i32,
        start_jumps: t[j3 + 1] as i32,
        render_images: t[j3 + 2] == 1,
        chase_time: t[j3 + 3] as i32,
        chase_score_bonus: t[j3 + 4] as i32,
        jump_time: t[j3 + 5] as i32,
        box_bonus: t[j3 + 6] as i32,
        default_board_bugs: t[j3 + 7] == 1,
        enemies,
        history_limit: t[j4],
        enemy_starting_speed: t[j4 + 1] as i32,
        player_speed: t[j4 + 2] as i32,
    };
    Some((c, j4 + 3))
}

/// Read a whole snapshot; the result's mathematical content is exactly what
/// the spec decoder reads.
pub fn decode_core(t: &Vec<u32>, i: usize) -> (r: Option<(StateCore, usize)>)
    ensures
        match r {
            Option::Some((x, j)) => dec_core(t@, i as int) == Some((x.model(), j as int)),
            Option::None => dec_core(t@, i as int) is None,
        },
{
    if i >= t.len() || t.len() - i < 7 {
        return None;
    }
    let (player, j) = match read_mob(t, i + 7) {
        Some(p) => p,
        None => {
            return None;
        },
    };
    if j >= t.len() {
        return None;
    }
    let n = t[j];
    let (enemies, j2) = match read_mobs(t, j + 1, n) {
        Some(p) => p,
        None => {
            return None;
        },
    };
    let (board, j3) = match read_board(t, j2) {
        Some(p) => p,
        None => {
            return None;
        },
    };
    let core = StateCore {
        rand: Gen { state: t[i] },
        score: t[i + 1] as i32,
        lives: t[i + 2] as i32,
        level: t[i + 3] as i32,
        jumps: t[i + 4] as i32,
        chase_timer: t[i + 5] as i32,
        jump_timer: t[i + 6] as i32,
        player,
        enemies,
        board,
    };
    proof {
        assert(core.model().enemies =~= Seq::new(core.enemies@.len(), |p: int| core.enemies@[p].model()));
    }
    Some((core, j3))
}

} // verus!
