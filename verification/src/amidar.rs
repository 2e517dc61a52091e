//! The maze-chase game: its configuration, its per-frame state, the frame
//! update algorithm that turns directional input into board mutations and
//! game events, and the collision classification.

use vstd::prelude::*;
use vstd::string::StrSliceExecFns;

use crate::board::spec_valid_layout;
use crate::board::Board;
use crate::direction::Direction;
use crate::geometry::TilePoint;
use crate::geometry::WorldPoint;
use crate::geometry::TILE_WORLD;
use crate::graphics::Color;
use crate::input::Input;
use crate::mob::MovementAI;
use crate::mob::Mob;
use crate::random::Gen;

verus! {

/// The configuration of a game; every new game is generated from it and
/// never mutates it.
#[derive(Debug, Clone, PartialEq)]
pub struct Amidar {
    /// The generator that seeds new games.
    pub rand: Gen,
    /// The board layout, one row per string.
    pub board: Vec<String>,
    /// Where the player starts on a new life.
    pub player_start: TilePoint,
    /// Background color.
    pub bg_color: Color,
    /// Player rectangle color.
    pub player_color: Color,
    /// Color of unpainted path cells.
    pub unpainted_color: Color,
    /// Color of painted path cells.
    pub painted_color: Color,
    /// Enemy color.
    pub enemy_color: Color,
    /// Fill color of completed boxes.
    pub inner_painted_color: Color,
    /// Lives a new game starts with.
    pub start_lives: i32,
    /// Jumps a new game starts with.
    pub start_jumps: i32,
    /// Whether a host should render sprites instead of plain rectangles.
    pub render_images: bool,
    /// How long chase mode lasts, in frames.
    pub chase_time: i32,
    /// Points for catching an enemy during chase mode.
    pub chase_score_bonus: i32,
    /// How long a jump's invulnerability lasts, in frames.
    pub jump_time: i32,
    /// Points for completing a box.
    pub box_bonus: i32,
    /// Kept for layouts that reproduce the quirks of the classic board.
    pub default_board_bugs: bool,
    /// The behaviour each enemy spawns with.
    pub enemies: Vec<MovementAI>,
    /// How many visited junctions each mover remembers.
    pub history_limit: u32,
    /// Enemy movement speed, world units per frame.
    pub enemy_starting_speed: i32,
    /// Player movement speed, world units per frame.
    pub player_speed: i32,
}

/// The mutable per-frame snapshot of one game.
#[derive(Debug, Clone, PartialEq)]
pub struct StateCore {
    /// The generator randomized movement draws from.
    pub rand: Gen,
    /// Points earned.
    pub score: i32,
    /// Lives left; below zero the state should be replaced by a new game.
    pub lives: i32,
    /// Current level, starting at 1.
    pub level: i32,
    /// Jumps still available.
    pub jumps: i32,
    /// Frames of chase mode left; zero means normal mode.
    pub chase_timer: i32,
    /// Frames of jump invulnerability left.
    pub jump_timer: i32,
    /// The player.
    pub player: Mob,
    /// The enemies, in a fixed order.
    pub enemies: Vec<Mob>,
    /// The board.
    pub board: Board,
}

/// A game state: the immutable configuration that produced it and the
/// mutable per-frame snapshot.
#[derive(Debug, Clone, PartialEq)]
pub struct State {
    /// The config that generated this game.
    pub config: Amidar,
    /// The current frame.
    pub state: StateCore,
}

/// The outcome of comparing the player's position against every enemy in
/// one frame; exactly one applies per frame.
#[derive(Debug, Clone, Copy, PartialEq, Eq, Structural)]
pub enum EnemyPlayerState {
    /// Nobody collides.
    Miss,
    /// The player touched an enemy in normal mode and dies.
    PlayerDeath,
    /// In chase mode the player caught the enemy with this index.
    EnemyCatch(usize),
}

/// A mover that is sound with respect to a board: position on the board (in
/// whole world coordinates), sane speed, destinations and locked targets on
/// the grid, bounded history.
pub open spec fn spec_mob_wf(m: Mob, bd: Board) -> bool {
    &&& 0 <= m.position.x <= (bd.width - 1) * TILE_WORLD
    &&& 0 <= m.position.y <= (bd.height - 1) * TILE_WORLD
    &&& 1 <= m.speed <= TILE_WORLD
    &&& (m.step matches Some(t) ==> bd.spec_in_bounds(t.tx as int, t.ty as int))
    &&& (m.ai matches MovementAI::EnemyTargetPlayer { player_seen: Some(t), .. }
        ==> bd.spec_in_bounds(t.tx as int, t.ty as int))
    &&& m.history@.len() <= 0x10000
    &&& forall|k: int| 0 <= k < m.history@.len() ==> (#[trigger] m.history@[k]) < bd.width * bd.height
}

impl StateCore {
    /// Well-formedness of a frame snapshot.
    pub open spec fn wf(self) -> bool {
        &&& self.board.wf()
        &&& spec_mob_wf(self.player, self.board)
        &&& forall|i: int|
            0 <= i < self.enemies@.len() ==> spec_mob_wf(#[trigger] self.enemies@[i], self.board)
        &&& self.enemies@.len() <= 64
        &&& self.chase_timer >= 0
        &&& self.jump_timer >= 0
        &&& self.jumps >= 0
    }
}

impl State {
    /// Well-formedness of a whole game state: a sound frame snapshot over a
    /// valid layout, with sane tunables.
    pub open spec fn wf(self) -> bool {
        &&& self.state.wf()
        &&& spec_valid_layout(self.config.board.deep_view())
        &&& 1 <= self.config.player_speed <= TILE_WORLD
        &&& 1 <= self.config.enemy_starting_speed <= TILE_WORLD
        &&& self.config.chase_time >= 0
        &&& self.config.jump_time >= 0
        &&& self.config.box_bonus >= 0
        &&& self.config.chase_score_bonus >= 0
        &&& self.config.history_limit <= 0x1000
    }
}

/// The tile an enemy or player occupies, given its world position.
pub open spec fn spec_mob_tile(m: Mob) -> TilePoint {
    TilePoint { tx: (m.position.x / TILE_WORLD) as i32, ty: (m.position.y / TILE_WORLD) as i32 }
}

/// The collision outcome scanning enemies from index `i` upward, in index
/// order, so simultaneous overlaps resolve deterministically:
/// in normal mode any overlap is the player's death; in chase mode the
/// first not-yet-caught overlapping enemy is caught; an overlap with an
/// already-caught enemy is a miss for that pairing.
pub open spec fn spec_collision_from(
    enemies: Seq<Mob>,
    ptile: TilePoint,
    chase: bool,
    i: int,
) -> EnemyPlayerState
    decreases enemies.len() - i,
{
    if i < 0 || i >= enemies.len() {
        EnemyPlayerState::Miss
    } else {
        let overlap = spec_mob_tile(enemies[i]) == ptile;
        if overlap && !chase {
            EnemyPlayerState::PlayerDeath
        } else if overlap && chase && !enemies[i].caught {
            EnemyPlayerState::EnemyCatch(i as usize)
        } else {
            spec_collision_from(enemies, ptile, chase, i + 1)
        }
    }
}

/// Saturating addition on `i32`.
pub open spec fn spec_sat_add(a: int, b: int) -> int {
    if a + b > i32::MAX {
        i32::MAX as int
    } else if a + b < i32::MIN {
        i32::MIN as int
    } else {
        a + b
    }
}

/// Saturating addition on `i32`.
pub fn sat_add(a: i32, b: i32) -> (r: i32)
    ensures
        r == spec_sat_add(a as int, b as int),
{
    let s: i64 = a as i64 + b as i64;
    if s > i32::MAX as i64 {
        i32::MAX
    } else if s < i32::MIN as i64 {
        i32::MIN
    } else {
        s as i32
    }
}

/// The world point of a tile's top-left corner.
pub open spec fn spec_tile_world(t: TilePoint) -> WorldPoint {
    WorldPoint { x: (t.tx * TILE_WORLD) as i32, y: (t.ty * TILE_WORLD) as i32 }
}

/// The tile a world position occupies.
pub open spec fn spec_pos_tile(p: WorldPoint) -> TilePoint {
    TilePoint { tx: (p.x / TILE_WORLD) as i32, ty: (p.y / TILE_WORLD) as i32 }
}

/// Whether a mover stands exactly on its pending destination.
pub open spec fn spec_arrived(m: Mob) -> bool {
    match m.step {
        Option::Some(t) => m.position == spec_tile_world(t),
        Option::None => false,
    }
}

/// The spawn cell for a wanted tile: the tile itself when it is on the
/// grid, else the top-left cell.
pub open spec fn spec_spawn_tile(bd: Board, want: TilePoint) -> TilePoint {
    if 0 <= want.tx < bd.width && 0 <= want.ty < bd.height {
        want
    } else {
        TilePoint { tx: 0, ty: 0 }
    }
}

/// A target-seeker with its lock cleared; every other behaviour unchanged.
pub open spec fn spec_clear_lock(ai: MovementAI) -> MovementAI {
    match ai {
        MovementAI::EnemyTargetPlayer { start, start_dir, vision_distance, dir, player_seen } => MovementAI::EnemyTargetPlayer {
            start,
            start_dir,
            vision_distance,
            dir,
            player_seen: None,
        },
        _ => ai,
    }
}

/// The tile a behaviour starts at, where it names one.
pub open spec fn spec_ai_start_tile(ai: MovementAI) -> TilePoint {
    match ai {
        MovementAI::Player => TilePoint { tx: 0, ty: 0 },
        MovementAI::EnemyLookupAI { .. } => TilePoint { tx: 0, ty: 0 },
        MovementAI::EnemyPerimeterAI { start } => start,
        MovementAI::EnemyAmidarMvmt { start, .. } => start,
        MovementAI::EnemyRandomMvmt { start, .. } => start,
        MovementAI::EnemyTargetPlayer { start, .. } => start,
    }
}

/// The direction the frame's input asks for, by the fixed priority up,
/// down, left, right.
pub open spec fn spec_input_dir(buttons: Input) -> Option<Direction> {
    if buttons.up {
        Some(Direction::Up)
    } else if buttons.down {
        Some(Direction::Down)
    } else if buttons.left {
        Some(Direction::Left)
    } else if buttons.right {
        Some(Direction::Right)
    } else {
        None
    }
}

/// The destination the player's input picks while it stands idle at a
/// walkable cell: the first junction along the asked direction.
pub open spec fn spec_player_choice(bd: Board, pos: WorldPoint, buttons: Input) -> Option<
    TilePoint,
> {
    let pt = spec_pos_tile(pos);
    if bd.spec_walkable_at(pt.tx as int, pt.ty as int) {
        match spec_input_dir(buttons) {
            Option::Some(d) => crate::board::spec_next_junction(bd, pt, d),
            Option::None => None,
        }
    } else {
        None
    }
}

/// Where one frame of motion leaves a mover: its position advanced toward
/// the pending destination, everything else untouched.
pub open spec fn spec_motion_mob(m: Mob) -> crate::codec::MobModel {
    crate::codec::MobModel {
        position: match m.step {
            Option::Some(t) => crate::mob::spec_move_toward(
                m.position,
                spec_tile_world(t),
                m.speed as int,
            ),
            Option::None => m.position,
        },
        ..m.model()
    }
}

/// FRAME STAGE ONE — motion: every mover's in-flight motion advances by its
/// speed; nothing else of the state moves.
pub open spec fn spec_motion_rel(pre: State, post: State) -> bool {
    &&& post.config == pre.config
    &&& post.state == (StateCore {
        player: post.state.player,
        enemies: post.state.enemies,
        ..pre.state
    })
    &&& post.state.player.model() == spec_motion_mob(pre.state.player)
    &&& post.state.enemies@.len() == pre.state.enemies@.len()
    &&& forall|i: int|
        0 <= i < pre.state.enemies@.len() ==> (#[trigger] post.state.enemies@[i]).model()
            == spec_motion_mob(pre.state.enemies@[i])
}

/// FRAME STAGE TWO, player half — on arrival at the destination junction
/// the traversed edge is painted and scored, a trigger starts chase mode
/// and clears every caught flag, the junction goes into the bounded
/// history; then, whenever idle, the input picks the next destination.
pub open spec fn spec_player_rel(pre: State, buttons: Input, post: State) -> bool {
    let cfg = pre.config;
    let s = pre.state;
    &&& post.config == cfg
    &&& post.state.rand == s.rand
    &&& post.state.lives == s.lives
    &&& post.state.level == s.level
    &&& post.state.jumps == s.jumps
    &&& post.state.jump_timer == s.jump_timer
    &&& post.state.enemies@.len() == s.enemies@.len()
    &&& if spec_arrived(s.player) {
        match s.player.step {
            Option::Some(t) => {
                let jidx = s.board.spec_index_of(t.tx as int, t.ty as int) as u32;
                let paints = s.player.history@.len() > 0 && {
                    let prev = crate::board::spec_tile_of_index(s.board, s.player.history@.last());
                    prev.tx == t.tx || prev.ty == t.ty
                };
                &&& (if paints {
                    let prev = crate::board::spec_tile_of_index(s.board, s.player.history@.last());
                    let cnt = crate::board::spec_count_new(
                        s.board,
                        prev,
                        t,
                        crate::board::spec_seg_len(prev, t),
                    );
                    let v = if prev.tx == t.tx {
                        cnt
                    } else {
                        0int
                    };
                    let h = if prev.tx == t.tx {
                        0int
                    } else {
                        cnt
                    };
                    let nb = crate::board::spec_completed_count(
                        s.board.boxes@,
                        post.state.board,
                        s.board.boxes@.len() as int,
                    );
                    let triggers = crate::board::spec_any_new_trigger(
                        s.board.boxes@,
                        post.state.board,
                        s.board.boxes@.len() as int,
                    ) && post.state.board.spec_all_triggers_painted();
                    &&& crate::board::spec_paint_effect(s.board, post.state.board, prev, t)
                    &&& post.state.score == spec_sat_add(
                        spec_sat_add(s.score as int, spec_sat_add(v, h)),
                        spec_sat_mul(nb, cfg.box_bonus as int),
                    )
                    &&& post.state.chase_timer == (if triggers {
                        cfg.chase_time as int
                    } else {
                        s.chase_timer as int
                    })
                    &&& forall|i: int|
                        0 <= i < s.enemies@.len() ==> (#[trigger] post.state.enemies@[i]).model()
                            == (if triggers {
                            crate::codec::MobModel { caught: false, ..s.enemies@[i].model() }
                        } else {
                            s.enemies@[i].model()
                        })
                } else {
                    &&& post.state.board == s.board
                    &&& post.state.score == s.score
                    &&& post.state.chase_timer == s.chase_timer
                    &&& post.state.enemies@ == s.enemies@
                })
                &&& post.state.player.model() == (crate::codec::MobModel {
                    ai: s.player.ai,
                    position: s.player.position,
                    caught: s.player.caught,
                    speed: s.player.speed,
                    step: spec_player_choice(post.state.board, s.player.position, buttons),
                    history: crate::mob::spec_push_history(
                        s.player.history@,
                        jidx,
                        cfg.history_limit,
                    ),
                })
            },
            Option::None => false,
        }
    } else if s.player.step is None {
        &&& post.state.board == s.board
        &&& post.state.score == s.score
        &&& post.state.chase_timer == s.chase_timer
        &&& post.state.enemies@ == s.enemies@
        &&& post.state.player.model() == (crate::codec::MobModel {
            step: spec_player_choice(s.board, s.player.position, buttons),
            ..s.player.model()
        })
    } else {
        post.state == s
    }
}

/// FRAME STAGE TWO, enemy half, one mover — an arrival records the junction
/// and clears the pending step; an idle mover at a walkable cell asks its
/// behaviour for the next destination.
pub open spec fn spec_enemy_turn_rel(
    o: Mob,
    n: Mob,
    bd: Board,
    ptile: TilePoint,
    limit: u32,
) -> bool {
    let arrived = spec_arrived(o);
    let hist2 = if arrived {
        match o.step {
            Option::Some(t) => crate::mob::spec_push_history(
                o.history@,
                bd.spec_index_of(t.tx as int, t.ty as int) as u32,
                limit,
            ),
            Option::None => o.history@,
        }
    } else {
        o.history@
    };
    let step1: Option<TilePoint> = if arrived {
        None
    } else {
        o.step
    };
    &&& n.position == o.position
    &&& n.caught == o.caught
    &&& n.speed == o.speed
    &&& n.history@ == hist2
    &&& match step1 {
        Option::Some(_) => n.step == step1 && n.ai == o.ai,
        Option::None => {
            let et = spec_pos_tile(o.position);
            if bd.spec_walkable_at(et.tx as int, et.ty as int) {
                crate::mob::spec_decision_rel(o.ai, n.ai, bd, et, ptile, n.step)
            } else {
                n.step is None && n.ai == o.ai
            }
        },
    }
}

/// FRAME STAGE TWO, enemy half — every enemy takes its turn in index order;
/// the board, the player and the scalars stay put. The generator advances
/// by the randomized movers' draws and is deliberately the one part this
/// relation leaves open.
pub open spec fn spec_enemy_rel(pre: State, post: State) -> bool {
    &&& post.config == pre.config
    &&& post.state.board == pre.state.board
    &&& post.state.player == pre.state.player
    &&& post.state.score == pre.state.score
    &&& post.state.lives == pre.state.lives
    &&& post.state.level == pre.state.level
    &&& post.state.jumps == pre.state.jumps
    &&& post.state.chase_timer == pre.state.chase_timer
    &&& post.state.jump_timer == pre.state.jump_timer
    &&& post.state.enemies@.len() == pre.state.enemies@.len()
    &&& forall|i: int|
        0 <= i < pre.state.enemies@.len() ==> spec_enemy_turn_rel(
            pre.state.enemies@[i],
            #[trigger] post.state.enemies@[i],
            pre.state.board,
            spec_pos_tile(pre.state.player.position),
            pre.config.history_limit,
        )
}

/// FRAME STAGE THREE, first half — a pressed button starts a jump when one
/// is available and none is running.
pub open spec fn spec_jump_rel(pre: State, buttons: Input, post: State) -> bool {
    let started = buttons.button1 && pre.state.jumps > 0 && pre.state.jump_timer == 0;
    &&& post.config == pre.config
    &&& post.state == (StateCore {
        jumps: post.state.jumps,
        jump_timer: post.state.jump_timer,
        ..pre.state
    })
    &&& post.state.jumps == (if started {
        pre.state.jumps - 1
    } else {
        pre.state.jumps as int
    })
    &&& post.state.jump_timer == (if started {
        pre.config.jump_time as int
    } else {
        pre.state.jump_timer as int
    })
}

/// FRAME STAGE THREE, second half — the collision outcome of the
/// post-motion positions is applied: a running jump makes the frame a miss;
/// a normal-mode overlap costs a life and sends the player to its start; a
/// chase-mode overlap catches the lowest-index uncaught enemy and scores
/// the bonus.
pub open spec fn spec_collision_rel(pre: State, post: State) -> bool {
    let r = if pre.state.jump_timer > 0 {
        EnemyPlayerState::Miss
    } else {
        spec_collision_from(
            pre.state.enemies@,
            spec_mob_tile(pre.state.player),
            pre.state.chase_timer > 0,
            0,
        )
    };
    &&& post.config == pre.config
    &&& match r {
        EnemyPlayerState::Miss => post.state == pre.state,
        EnemyPlayerState::PlayerDeath => {
            let spawn = spec_spawn_tile(pre.state.board, pre.config.player_start);
            &&& post.state == (StateCore {
                lives: post.state.lives,
                player: post.state.player,
                ..pre.state
            })
            &&& post.state.lives == spec_sat_add(pre.state.lives as int, -1)
            &&& post.state.player.model() == (crate::codec::MobModel {
                ai: pre.state.player.ai,
                position: spec_tile_world(spawn),
                caught: pre.state.player.caught,
                speed: pre.state.player.speed,
                step: None,
                history: seq![
                    pre.state.board.spec_index_of(spawn.tx as int, spawn.ty as int) as u32,
                ],
            })
        },
        EnemyPlayerState::EnemyCatch(i) => {
            &&& post.state == (StateCore {
                score: post.state.score,
                enemies: post.state.enemies,
                ..pre.state
            })
            &&& post.state.score == spec_sat_add(
                pre.state.score as int,
                pre.config.chase_score_bonus as int,
            )
            &&& 0 <= i < pre.state.enemies@.len()
            &&& post.state.enemies@ == pre.state.enemies@.update(
                i as int,
                Mob { caught: true, ..pre.state.enemies@[i as int] },
            )
        },
    }
}

/// FRAME STAGE FOUR — both timers count down by one, never below zero;
/// when chase mode expires every enemy becomes catchable again.
pub open spec fn spec_countdown_rel(pre: State, post: State) -> bool {
    let expired = pre.state.chase_timer == 1;
    &&& post.config == pre.config
    &&& post.state == (StateCore {
        chase_timer: post.state.chase_timer,
        jump_timer: post.state.jump_timer,
        enemies: post.state.enemies,
        ..pre.state
    })
    &&& post.state.chase_timer == (if pre.state.chase_timer > 0 {
        pre.state.chase_timer - 1
    } else {
        0int
    })
    &&& post.state.jump_timer == (if pre.state.jump_timer > 0 {
        pre.state.jump_timer - 1
    } else {
        0int
    })
    &&& post.state.enemies@.len() == pre.state.enemies@.len()
    &&& forall|i: int|
        0 <= i < pre.state.enemies@.len() ==> (#[trigger] post.state.enemies@[i]).model() == (
        if expired {
            crate::codec::MobModel { caught: false, ..pre.state.enemies@[i].model() }
        } else {
            pre.state.enemies@[i].model()
        })
}

/// FRAME STAGE FIVE — when every box is painted the level advances: the
/// board is rebuilt fresh from the configured layout and the movers respawn
/// at their starts with cleared locks and fresh histories.
pub open spec fn spec_level_rel(pre: State, post: State) -> bool {
    let complete = pre.state.board.boxes@.len() > 0 && (forall|i: int|
        0 <= i < pre.state.board.boxes@.len() ==> (#[trigger] pre.state.board.boxes@[i]).painted);
    if !complete {
        post == pre
    } else {
        let spawn = spec_spawn_tile(post.state.board, pre.config.player_start);
        &&& post.config == pre.config
        &&& post.state.rand == pre.state.rand
        &&& post.state.score == pre.state.score
        &&& post.state.lives == pre.state.lives
        &&& post.state.jumps == pre.state.jumps
        &&& post.state.chase_timer == pre.state.chase_timer
        &&& post.state.jump_timer == pre.state.jump_timer
        &&& post.state.level == spec_sat_add(pre.state.level as int, 1)
        &&& crate::board::spec_board_from_layout(pre.config.board.deep_view(), post.state.board)
        &&& post.state.player.model() == (crate::codec::MobModel {
            ai: spec_clear_lock(pre.state.player.ai),
            position: spec_tile_world(spawn),
            caught: pre.state.player.caught,
            speed: pre.state.player.speed,
            step: None,
            history: seq![
                post.state.board.spec_index_of(spawn.tx as int, spawn.ty as int) as u32,
            ],
        })
        &&& post.state.enemies@.len() == pre.state.enemies@.len()
        &&& forall|i: int|
            0 <= i < pre.state.enemies@.len() ==> (#[trigger] post.state.enemies@[i]).model()
                == (crate::codec::MobModel {
                ai: spec_clear_lock(pre.state.enemies@[i].ai),
                position: spec_tile_world(
                    spec_spawn_tile(post.state.board, spec_ai_start_tile(pre.state.enemies@[i].ai)),
                ),
                caught: pre.state.enemies@[i].caught,
                speed: pre.state.enemies@[i].speed,
                step: None,
                history: Seq::empty(),
            })
    }
}

/// What one frame does, stage by stage in the fixed order: motion, the
/// player's painting turn, the enemies' turns, the jump start, the
/// collision outcome, the countdowns, and the level advance. Everything is
/// pinned except which directions the generator's draws select for the
/// randomized movers.
pub open spec fn spec_frame_rel(pre: State, buttons: Input, post: State) -> bool {
    exists|s1: State, s2: State, s3: State, s4: State, s5: State, s6: State|
        #![trigger spec_motion_rel(pre, s1), spec_player_rel(s1, buttons, s2), spec_enemy_rel(
            s2,
            s3,
        ), spec_jump_rel(s3, buttons, s4), spec_collision_rel(s4, s5), spec_countdown_rel(s5, s6)]
        {
            &&& spec_motion_rel(pre, s1)
            &&& spec_player_rel(s1, buttons, s2)
            &&& spec_enemy_rel(s2, s3)
            &&& spec_jump_rel(s3, buttons, s4)
            &&& spec_collision_rel(s4, s5)
            &&& spec_countdown_rel(s5, s6)
            &&& spec_level_rel(s6, post)
        }
}

/// LAW at the frame step — painting is monotonic across a frame: as long
/// as the frame does not rebuild the board for a new level, no painted tile
/// ever reverts. Together with the painting engine's idempotence law, a
/// frame that re-traverses an already painted edge leaves every tile as it
/// was.
pub proof fn lemma_frame_paint_monotone(pre: State, buttons: Input, post: State)
    requires
        spec_frame_rel(pre, buttons, post),
        pre.state.level < i32::MAX,
        post.state.level == pre.state.level,
    ensures
        forall|x: int, y: int|
            pre.state.board.spec_painted_at(x, y) ==> post.state.board.spec_painted_at(x, y),
{
    let (s1, s2, s3, s4, s5, s6) = choose|s1: State, s2: State, s3: State, s4: State, s5: State, s6: State|
        {
            &&& spec_motion_rel(pre, s1)
            &&& spec_player_rel(s1, buttons, s2)
            &&& spec_enemy_rel(s2, s3)
            &&& spec_jump_rel(s3, buttons, s4)
            &&& spec_collision_rel(s4, s5)
            &&& spec_countdown_rel(s5, s6)
            &&& spec_level_rel(s6, post)
        };
    assert(s1.state.board == pre.state.board);
    // the only in-level board change is the player's painting, which never
    // takes a tile out of the painted state
    assert forall|x: int, y: int|
        pre.state.board.spec_painted_at(x, y) implies s2.state.board.spec_painted_at(x, y) by {}
    assert(s3.state.board == s2.state.board);
    assert(s4.state.board == s2.state.board);
    assert(s5.state.board == s4.state.board) by {
        let r = if s4.state.jump_timer > 0 {
            EnemyPlayerState::Miss
        } else {
            spec_collision_from(
                s4.state.enemies@,
                spec_mob_tile(s4.state.player),
                s4.state.chase_timer > 0,
                0,
            )
        };
        match r {
            EnemyPlayerState::Miss => {},
            EnemyPlayerState::PlayerDeath => {},
            EnemyPlayerState::EnemyCatch(_) => {},
        }
    }
    assert(s6.state.board == s5.state.board);
    assert(post.state.board == s6.state.board) by {
        let complete = s6.state.board.boxes@.len() > 0 && (forall|i: int|
            0 <= i < s6.state.board.boxes@.len() ==> (
            #[trigger] s6.state.board.boxes@[i]).painted);
        if complete {
            // a completed board rebuilds and raises the level, which the
            // hypothesis rules out
            assert(s6.state.level == pre.state.level);
            assert(post.state.level == spec_sat_add(pre.state.level as int, 1));
            assert(false);
        }
    }
}

/// LAW at the frame step — the chase trigger cannot re-fire: once every
/// chase-triggering box is painted, a frame that does not rebuild the board
/// only counts the chase timer down, and never raises it.
pub proof fn lemma_frame_trigger_once(pre: State, buttons: Input, post: State)
    requires
        pre.wf(),
        spec_frame_rel(pre, buttons, post),
        pre.state.board.spec_all_triggers_painted(),
        pre.state.level < i32::MAX,
        post.state.level == pre.state.level,
    ensures
        post.state.chase_timer == (if pre.state.chase_timer > 0 {
            pre.state.chase_timer - 1
        } else {
            0int
        }),
{
    let (s1, s2, s3, s4, s5, s6) = choose|s1: State, s2: State, s3: State, s4: State, s5: State, s6: State|
        {
            &&& spec_motion_rel(pre, s1)
            &&& spec_player_rel(s1, buttons, s2)
            &&& spec_enemy_rel(s2, s3)
            &&& spec_jump_rel(s3, buttons, s4)
            &&& spec_collision_rel(s4, s5)
            &&& spec_countdown_rel(s5, s6)
            &&& spec_level_rel(s6, post)
        };
    assert(s1.state.board == pre.state.board);
    assert(s1.state.chase_timer == pre.state.chase_timer);
    // the player's painting cannot fire the trigger: every triggering box is
    // already painted, so none can newly transition
    assert(s2.state.chase_timer == pre.state.chase_timer) by {
        if s2.state.chase_timer != s1.state.chase_timer {
            if crate::board::spec_any_new_trigger(
                s1.state.board.boxes@,
                s2.state.board,
                s1.state.board.boxes@.len() as int,
            ) {
                crate::board::lemma_new_trigger_witness(
                    s1.state.board.boxes@,
                    s2.state.board,
                    s1.state.board.boxes@.len() as int,
                );
            }
        }
    }
    assert(s3.state.chase_timer == pre.state.chase_timer);
    assert(s4.state.chase_timer == pre.state.chase_timer);
    assert(s5.state.chase_timer == pre.state.chase_timer) by {
        let r = if s4.state.jump_timer > 0 {
            EnemyPlayerState::Miss
        } else {
            spec_collision_from(
                s4.state.enemies@,
                spec_mob_tile(s4.state.player),
                s4.state.chase_timer > 0,
                0,
            )
        };
        match r {
            EnemyPlayerState::Miss => {},
            EnemyPlayerState::PlayerDeath => {},
            EnemyPlayerState::EnemyCatch(_) => {},
        }
    }
    assert(s6.state.chase_timer == (if pre.state.chase_timer > 0 {
        pre.state.chase_timer - 1
    } else {
        0int
    }));
    assert(post.state.chase_timer == s6.state.chase_timer) by {
        let complete = s6.state.board.boxes@.len() > 0 && (forall|i: int|
            0 <= i < s6.state.board.boxes@.len() ==> (
            #[trigger] s6.state.board.boxes@[i]).painted);
        if complete {
            assert(s6.state.level == pre.state.level);
            assert(post.state.level == spec_sat_add(pre.state.level as int, 1));
            assert(false);
        }
    }
}

/// A mutable borrow of one element of a vector.
fn vec_mut<T>(v: &mut Vec<T>, i: usize) -> (element: &mut T)
    requires
        i < old(v).len(),
    ensures
        *element == old(v)@[i as int],
        final(v)@ == old(v)@.update(i as int, *final(element)),
{
    &mut v[i]
}

impl State {
    /// Frame stage one: advance every mover's in-flight motion by its speed,
    /// snapping to the destination on the last step.
    fn advance_all_motion(&mut self)
        requires
            old(self).wf(),
        ensures
            final(self).wf(),
            final(self).config == old(self).config,
            *final(self) == (State {
                config: old(self).config,
                state: StateCore {
                    player: final(self).state.player,
                    enemies: final(self).state.enemies,
                    ..old(self).state
                },
            }),
            final(self).state.player == (Mob {
                position: final(self).state.player.position,
                ..old(self).state.player
            }),
            final(self).state.enemies@.len() == old(self).state.enemies@.len(),
            forall|i: int|
                0 <= i < old(self).state.enemies@.len()
                    ==> final(self).state.enemies@[i] == (Mob {
                        position: final(self).state.enemies@[i].position,
                        ..old(self).state.enemies@[i]
                    }),
            spec_motion_rel(*old(self), *final(self)),
    {
        self.state.player.advance_motion();
        proof {
            assert(spec_mob_wf(self.state.player, self.state.board));
            assert(self.state.player.model() == spec_motion_mob(old(self).state.player));
        }
        let n = self.state.enemies.len();
        let mut i: usize = 0;
        while i < n
            invariant
                0 <= i <= n,
                n == self.state.enemies@.len(),
                n == old(self).state.enemies@.len(),
                old(self).wf(),
                *self == (State {
                    config: old(self).config,
                    state: StateCore {
                        player: self.state.player,
                        enemies: self.state.enemies,
                        ..old(self).state
                    },
                }),
                self.state.player == (Mob {
                    position: self.state.player.position,
                    ..old(self).state.player
                }),
                self.state.player.model() == spec_motion_mob(old(self).state.player),
                spec_mob_wf(self.state.player, self.state.board),
                self.state.board == old(self).state.board,
                forall|k: int|
                    i <= k < n ==> self.state.enemies@[k] == old(self).state.enemies@[k],
                forall|k: int|
                    0 <= k < i
                        ==> self.state.enemies@[k] == (Mob {
                            position: (#[trigger] self.state.enemies@[k]).position,
                            ..old(self).state.enemies@[k]
                        }) && spec_mob_wf(self.state.enemies@[k], self.state.board)
                        && self.state.enemies@[k].model() == spec_motion_mob(
                            old(self).state.enemies@[k],
                        ),
            decreases n - i,
        {
            proof {
                assert(spec_mob_wf(old(self).state.enemies@[i as int], old(self).state.board));
            }
            let m = vec_mut(&mut self.state.enemies, i);
            m.advance_motion();
            proof {
                assert(spec_mob_wf(self.state.enemies@[i as int], self.state.board));
                assert(self.state.enemies@[i as int].model() == spec_motion_mob(
                    old(self).state.enemies@[i as int],
                ));
            }
            i = i + 1;
        }
        proof {
            assert(self.state.player.model() == spec_motion_mob(old(self).state.player));
        }
    }

    /// Lives left; when this goes below zero the host should replace the
    /// state with a new game.
    pub fn lives(&self) -> (r: i32)
        ensures
            r == self.state.lives,
    {
        self.state.lives
    }

    /// The score.
    pub fn score(&self) -> (r: i32)
        ensures
            r == self.state.score,
    {
        self.state.score
    }

    /// The current level, 1-based.
    pub fn level(&self) -> (r: i32)
        ensures
            r == self.state.level,
    {
        self.state.level
    }

    /// The jumps still available.
    pub fn jumps(&self) -> (r: i32)
        ensures
            r == self.state.jumps,
    {
        self.state.jumps
    }

    /// Whether the player is out of lives.
    pub fn is_dead(&self) -> (r: bool)
        ensures
            r == (self.state.lives < 0),
    {
        self.state.lives < 0
    }

    /// Classify the player's position against every enemy: exactly one
    /// outcome per frame, enemies scanned in index order.
    pub fn check_enemy_player_collision(&self) -> (r: EnemyPlayerState)
        requires
            self.wf(),
        ensures
            r == spec_collision_from(
                self.state.enemies@,
                spec_mob_tile(self.state.player),
                self.state.chase_timer > 0,
                0,
            ),
    {
        let ptile = TilePoint {
            tx: self.state.player.position.x / TILE_WORLD,
            ty: self.state.player.position.y / TILE_WORLD,
        };
        let chase = self.state.chase_timer > 0;
        let n = self.state.enemies.len();
        let mut i: usize = 0;
        while i < n
            invariant
                0 <= i <= n,
                n == self.state.enemies@.len(),
                ptile == spec_mob_tile(self.state.player),
                chase == (self.state.chase_timer > 0),
                forall|k: int|
                    0 <= k < self.state.enemies@.len() ==> spec_mob_wf(
                        #[trigger] self.state.enemies@[k],
                        self.state.board,
                    ),
                spec_collision_from(self.state.enemies@, ptile, chase, 0)
                    == spec_collision_from(self.state.enemies@, ptile, chase, i as int),
            decreases n - i,
        {
            let e = &self.state.enemies[i];
            let etx = e.position.x / TILE_WORLD;
            let ety = e.position.y / TILE_WORLD;
            let overlap = etx == ptile.tx && ety == ptile.ty;
            if overlap && !chase {
                return EnemyPlayerState::PlayerDeath;
            }
            if overlap && chase && !e.caught {
                return EnemyPlayerState::EnemyCatch(i);
            }
            i = i + 1;
        }
        EnemyPlayerState::Miss
    }

    /// Frame stage two, player half: on arrival at the destination
    /// junction, paint the traversed edge, apply its score and box effects,
    /// record the junction, and then (whenever idle) pick a new destination
    /// from the directional input.
    fn player_turn(&mut self, buttons: Input)
        requires
            old(self).wf(),
        ensures
            final(self).wf(),
            final(self).config == old(self).config,
            final(self).state.lives == old(self).state.lives,
            final(self).state.level == old(self).state.level,
            final(self).state.jumps == old(self).state.jumps,
            final(self).state.jump_timer == old(self).state.jump_timer,
            final(self).state.rand == old(self).state.rand,
            final(self).state.enemies@.len() == old(self).state.enemies@.len(),
            final(self).state.score >= old(self).state.score,
            spec_player_rel(*old(self), buttons, *final(self)),
    {
        let limit = self.config.history_limit;
        if self.state.player.arrived() {
            let t = match &self.state.player.step {
                Some(t) => TilePoint { tx: t.tx, ty: t.ty },
                None => {
                    // unreachable: an arrived mover has a destination
                    proof {
                        assert(false);
                    }
                    return ;
                },
            };
            self.state.player.step = None;
            proof {
                crate::board::mul_bounds(t.ty as int, self.state.board.width as int, self.state.board.height as int);
            }
            let jidx: u32 = (t.ty as u32) * self.state.board.width + (t.tx as u32);
            // paint the edge travelled from the previous junction, if any
            let hist_len = self.state.player.history.len();
            if hist_len > 0 {
                let prev_idx = self.state.player.history[hist_len - 1];
                let prev = tile_of_index(&self.state.board, prev_idx);
                if prev.tx == t.tx || prev.ty == t.ty {
                    let ghost preboard = self.state.board;
                    let u = self.state.board.paint_between(&prev, &t);
                    proof {
                        crate::board::lemma_count_new_nonneg(preboard, prev, t, crate::board::spec_seg_len(prev, t));
                        crate::board::lemma_completed_count_nonneg(preboard.boxes@, self.state.board, preboard.boxes@.len() as int);
                        assert(self.state.wf()) by {
                            assert(spec_mob_wf(self.state.player, self.state.board));
                            assert forall|k: int| 0 <= k < self.state.enemies@.len() implies
                                spec_mob_wf(#[trigger] self.state.enemies@[k], self.state.board) by {
                                assert(spec_mob_wf(self.state.enemies@[k], preboard));
                            }
                        }
                    }
                    let dv = sat_add(u.vertical, u.horizontal);
                    self.state.score = sat_add(self.state.score, dv);
                    let boxes_score = sat_mul(u.num_boxes, self.config.box_bonus);
                    self.state.score = sat_add(self.state.score, boxes_score);
                    if u.triggers_chase {
                        self.state.chase_timer = self.config.chase_time;
                        self.clear_caught_flags();
                    }
                    proof {
                        let sb = old(self).state;
                        let cnt = crate::board::spec_count_new(
                            sb.board,
                            prev,
                            t,
                            crate::board::spec_seg_len(prev, t),
                        );
                        let v = if prev.tx == t.tx { cnt } else { 0int };
                        let h = if prev.tx == t.tx { 0int } else { cnt };
                        let nb = crate::board::spec_completed_count(
                            sb.board.boxes@,
                            self.state.board,
                            sb.board.boxes@.len() as int,
                        );
                        let triggers = crate::board::spec_any_new_trigger(
                            sb.board.boxes@,
                            self.state.board,
                            sb.board.boxes@.len() as int,
                        ) && self.state.board.spec_all_triggers_painted();
                        assert(u.triggers_chase == triggers);
                        assert(self.state.score == spec_sat_add(
                            spec_sat_add(sb.score as int, spec_sat_add(v, h)),
                            spec_sat_mul(nb, self.config.box_bonus as int),
                        ));
                        assert(self.state.chase_timer == (if triggers {
                            self.config.chase_time as int
                        } else {
                            sb.chase_timer as int
                        }));
                        assert forall|k: int| 0 <= k < sb.enemies@.len() implies (
                        #[trigger] self.state.enemies@[k]).model() == (if triggers {
                            crate::codec::MobModel { caught: false, ..sb.enemies@[k].model() }
                        } else {
                            sb.enemies@[k].model()
                        }) by {}
                    }
                }
            }
            self.state.player.push_history(jidx, limit);
            proof {
                lemma_push_history_wf(old(self).state.player.history@, jidx, limit, self.state.board);
                assert(spec_mob_wf(self.state.player, self.state.board));
                assert(jidx == old(self).state.board.spec_index_of(t.tx as int, t.ty as int) as u32);
            }
        }
        // idle at a junction: pick a new destination from the input
        if self.state.player.step.is_none() {
            let px = self.state.player.position.x;
            let py = self.state.player.position.y;
            proof {
                crate::board::lemma_div_below(px as int, TILE_WORLD as int, self.state.board.width as int);
                crate::board::lemma_div_below(py as int, TILE_WORLD as int, self.state.board.height as int);
            }
            let ptile = TilePoint { tx: px / TILE_WORLD, ty: py / TILE_WORLD };
            if self.state.board.walkable_at(ptile.tx, ptile.ty) {
                let d = if buttons.up {
                    Some(Direction::Up)
                } else if buttons.down {
                    Some(Direction::Down)
                } else if buttons.left {
                    Some(Direction::Left)
                } else if buttons.right {
                    Some(Direction::Right)
                } else {
                    None
                };
                if let Some(d) = d {
                    let dest = self.state.board.next_junction_in_direction(&ptile, d);
                    self.state.player.step = dest;
                }
            }
        }
        proof {
            assert(spec_player_rel(*old(self), buttons, *self));
        }
    }

    /// Reset every enemy's caught flag; chase mode starts afresh.
    fn clear_caught_flags(&mut self)
        ensures
            final(self).config == old(self).config,
            *final(self) == (State {
                config: old(self).config,
                state: StateCore { enemies: final(self).state.enemies, ..old(self).state },
            }),
            final(self).state.enemies@.len() == old(self).state.enemies@.len(),
            forall|i: int|
                0 <= i < old(self).state.enemies@.len()
                    ==> final(self).state.enemies@[i] == (Mob {
                        caught: false,
                        ..old(self).state.enemies@[i]
                    }),
    {
        let n = self.state.enemies.len();
        let mut i: usize = 0;
        while i < n
            invariant
                0 <= i <= n,
                n == self.state.enemies@.len(),
                n == old(self).state.enemies@.len(),
                *self == (State {
                    config: old(self).config,
                    state: StateCore { enemies: self.state.enemies, ..old(self).state },
                }),
                forall|k: int| i <= k < n ==> self.state.enemies@[k] == old(self).state.enemies@[k],
                forall|k: int|
                    0 <= k < i
                        ==> self.state.enemies@[k] == (Mob {
                            caught: false,
                            ..old(self).state.enemies@[k]
                        }),
            decreases n - i,
        {
            let m = vec_mut(&mut self.state.enemies, i);
            m.caught = false;
            i = i + 1;
        }
    }

    /// Frame stage two, enemy half: each enemy that arrived at its
    /// destination junction (or is idle) records the junction and asks its
    /// behaviour for the next destination.
    fn enemy_turns(&mut self)
        requires
            old(self).wf(),
        ensures
            final(self).wf(),
            final(self).config == old(self).config,
            final(self).state.board == old(self).state.board,
            final(self).state.player == old(self).state.player,
            final(self).state.score == old(self).state.score,
            final(self).state.lives == old(self).state.lives,
            final(self).state.level == old(self).state.level,
            final(self).state.jumps == old(self).state.jumps,
            final(self).state.chase_timer == old(self).state.chase_timer,
            final(self).state.jump_timer == old(self).state.jump_timer,
            final(self).state.enemies@.len() == old(self).state.enemies@.len(),
            forall|i: int|
                0 <= i < old(self).state.enemies@.len()
                    ==> (#[trigger] final(self).state.enemies@[i]).caught == old(
                        self,
                    ).state.enemies@[i].caught,
            spec_enemy_rel(*old(self), *final(self)),
    {
        let limit = self.config.history_limit;
        let px = self.state.player.position.x;
        let py = self.state.player.position.y;
        proof {
            crate::board::lemma_div_below(px as int, TILE_WORLD as int, self.state.board.width as int);
            crate::board::lemma_div_below(py as int, TILE_WORLD as int, self.state.board.height as int);
        }
        let ptile = TilePoint { tx: px / TILE_WORLD, ty: py / TILE_WORLD };
        let n = self.state.enemies.len();
        let mut i: usize = 0;
        while i < n
            invariant
                0 <= i <= n,
                n == self.state.enemies@.len(),
                n == old(self).state.enemies@.len(),
                old(self).wf(),
                self.config == old(self).config,
                self.state.board == old(self).state.board,
                self.state.player == old(self).state.player,
                self.state.score == old(self).state.score,
                self.state.lives == old(self).state.lives,
                self.state.level == old(self).state.level,
                self.state.jumps == old(self).state.jumps,
                self.state.chase_timer == old(self).state.chase_timer,
                self.state.jump_timer == old(self).state.jump_timer,
                limit == self.config.history_limit,
                self.state.board.spec_in_bounds(ptile.tx as int, ptile.ty as int),
                ptile == spec_pos_tile(old(self).state.player.position),
                forall|k: int| i <= k < n ==> self.state.enemies@[k] == old(self).state.enemies@[k],
                forall|k: int|
                    0 <= k < i ==> spec_enemy_turn_rel(
                        old(self).state.enemies@[k],
                        #[trigger] self.state.enemies@[k],
                        old(self).state.board,
                        spec_pos_tile(old(self).state.player.position),
                        old(self).config.history_limit,
                    ),
                forall|k: int|
                    0 <= k < n ==> spec_mob_wf(#[trigger] self.state.enemies@[k], self.state.board),
                forall|k: int|
                    0 <= k < n ==> (#[trigger] self.state.enemies@[k]).caught == old(
                        self,
                    ).state.enemies@[k].caught,
            decreases n - i,
        {
            let arrived = self.state.enemies[i].arrived();
            if arrived {
                let t = match &self.state.enemies[i].step {
                    Some(t) => TilePoint { tx: t.tx, ty: t.ty },
                    None => TilePoint { tx: 0, ty: 0 },
                };
                proof {
                    crate::board::mul_bounds(t.ty as int, self.state.board.width as int, self.state.board.height as int);
                }
                let jidx: u32 = (t.ty as u32) * self.state.board.width + (t.tx as u32);
                let ghost hpre = self.state.enemies@[i as int].history@;
                let m = vec_mut(&mut self.state.enemies, i);
                m.step = None;
                m.push_history(jidx, limit);
                proof {
                    lemma_push_history_wf(hpre, jidx, limit, self.state.board);
                    assert(spec_mob_wf(self.state.enemies@[i as int], self.state.board));
                    assert(jidx == self.state.board.spec_index_of(t.tx as int, t.ty as int) as u32);
                }
            }
            let idle = self.state.enemies[i].step.is_none();
            if idle {
                let ex = self.state.enemies[i].position.x;
                let ey = self.state.enemies[i].position.y;
                proof {
                    assert(spec_mob_wf(self.state.enemies@[i as int], self.state.board));
                    crate::board::lemma_div_below(ex as int, TILE_WORLD as int, self.state.board.width as int);
                    crate::board::lemma_div_below(ey as int, TILE_WORLD as int, self.state.board.height as int);
                }
                let etile = TilePoint { tx: ex / TILE_WORLD, ty: ey / TILE_WORLD };
                if self.state.board.walkable_at(etile.tx, etile.ty) {
                    let mut ai = self.state.enemies[i].ai;
                    let dest = ai.choose_next_tile(&self.state.board, &etile, &ptile, &mut self.state.rand);
                    let m = vec_mut(&mut self.state.enemies, i);
                    m.ai = ai;
                    m.step = dest;
                    proof {
                        assert(spec_mob_wf(self.state.enemies@[i as int], self.state.board));
                    }
                }
            }
            proof {
                assert(spec_enemy_turn_rel(
                    old(self).state.enemies@[i as int],
                    self.state.enemies@[i as int],
                    old(self).state.board,
                    spec_pos_tile(old(self).state.player.position),
                    old(self).config.history_limit,
                ));
            }
            i = i + 1;
        }
    }

    /// Frame stage three: classify the player against every enemy using
    /// post-motion positions and apply the outcome. A running jump makes
    /// the player untouchable for the frame. A death costs one life and
    /// sends the player back to its start; a catch marks the enemy caught
    /// and scores the chase bonus.
    fn resolve_collision(&mut self) -> (r: EnemyPlayerState)
        requires
            old(self).wf(),
        ensures
            final(self).wf(),
            final(self).config == old(self).config,
            r == (if old(self).state.jump_timer > 0 {
                EnemyPlayerState::Miss
            } else {
                spec_collision_from(
                    old(self).state.enemies@,
                    spec_mob_tile(old(self).state.player),
                    old(self).state.chase_timer > 0,
                    0,
                )
            }),
            r is Miss ==> *final(self) == *old(self),
            r is PlayerDeath ==> final(self).state.lives == spec_sat_add(
                old(self).state.lives as int,
                -1,
            ) && final(self).state.score == old(self).state.score
                && final(self).state.enemies@ == old(self).state.enemies@,
            r matches EnemyPlayerState::EnemyCatch(i) ==> {
                &&& 0 <= i < old(self).state.enemies@.len()
                &&& final(self).state.score == spec_sat_add(
                    old(self).state.score as int,
                    old(self).config.chase_score_bonus as int,
                )
                &&& final(self).state.lives == old(self).state.lives
                &&& final(self).state.enemies@ == old(self).state.enemies@.update(
                    i as int,
                    Mob { caught: true, ..old(self).state.enemies@[i as int] },
                )
            },
            final(self).state.enemies@.len() == old(self).state.enemies@.len(),
            final(self).state.level == old(self).state.level,
            final(self).state.jumps == old(self).state.jumps,
            final(self).state.chase_timer == old(self).state.chase_timer,
            final(self).state.jump_timer == old(self).state.jump_timer,
            final(self).state.rand == old(self).state.rand,
            final(self).state.score >= old(self).state.score,
            spec_collision_rel(*old(self), *final(self)),
    {
        if self.state.jump_timer > 0 {
            return EnemyPlayerState::Miss;
        }
        let r = self.check_enemy_player_collision();
        match r {
            EnemyPlayerState::Miss => {},
            EnemyPlayerState::PlayerDeath => {
                self.state.lives = sat_add(self.state.lives, -1);
                let spawn = spawn_tile(&self.state.board, &self.config.player_start);
                self.state.player.position = spawn.to_world();
                self.state.player.step = None;
                self.state.player.history = seeded_history(&self.state.board, &spawn);
                proof {
                    lemma_tile_world_in_bounds(spawn, self.state.board);
                    lemma_respawned_mob_wf(
                        old(self).state.player,
                        self.state.player,
                        self.state.board,
                    );
                    assert(self.state.player.history@ =~= seq![
                        old(self).state.board.spec_index_of(spawn.tx as int, spawn.ty as int) as u32,
                    ]);
                }
            },
            EnemyPlayerState::EnemyCatch(i) => {
                self.state.score = sat_add(self.state.score, self.config.chase_score_bonus);
                proof {
                    lemma_collision_catch_in_range(
                        self.state.enemies@,
                        spec_mob_tile(self.state.player),
                        self.state.chase_timer > 0,
                        0,
                        i,
                    );
                }
                let m = vec_mut(&mut self.state.enemies, i);
                m.caught = true;
            },
        }
        r
    }

    /// Start a jump when the button is pressed, a jump is available, and
    /// none is running: the player turns untouchable for the configured
    /// time, starting with this frame's collision check.
    fn start_jump(&mut self, buttons: Input)
        requires
            old(self).wf(),
        ensures
            final(self).wf(),
            final(self).config == old(self).config,
            ({
                let jump_started = buttons.button1 && old(self).state.jumps > 0 && old(
                    self,
                ).state.jump_timer == 0;
                &&& final(self).state.jumps == (if jump_started {
                    old(self).state.jumps - 1
                } else {
                    old(self).state.jumps as int
                })
                &&& final(self).state.jump_timer == (if jump_started {
                    old(self).config.jump_time as int
                } else {
                    old(self).state.jump_timer as int
                })
                &&& *final(self) == (State {
                    config: old(self).config,
                    state: StateCore {
                        jumps: final(self).state.jumps,
                        jump_timer: final(self).state.jump_timer,
                        ..old(self).state
                    },
                })
            }),
            spec_jump_rel(*old(self), buttons, *final(self)),
    {
        if buttons.button1 && self.state.jumps > 0 && self.state.jump_timer == 0 {
            self.state.jumps = self.state.jumps - 1;
            self.state.jump_timer = self.config.jump_time;
        }
    }

    /// Frame stage four: count the chase and jump timers down; when chase
    /// mode expires, every enemy becomes catchable again next time.
    fn countdown_timers(&mut self)
        requires
            old(self).wf(),
        ensures
            final(self).wf(),
            final(self).config == old(self).config,
            final(self).state.jumps == old(self).state.jumps,
            final(self).state.jump_timer == (if old(self).state.jump_timer > 0 {
                old(self).state.jump_timer - 1
            } else {
                0
            }),
            final(self).state.chase_timer == (if old(self).state.chase_timer > 0 {
                old(self).state.chase_timer - 1
            } else {
                0
            }),
            final(self).state.score == old(self).state.score,
            final(self).state.lives == old(self).state.lives,
            final(self).state.level == old(self).state.level,
            final(self).state.board == old(self).state.board,
            final(self).state.player == old(self).state.player,
            final(self).state.rand == old(self).state.rand,
            final(self).state.enemies@.len() == old(self).state.enemies@.len(),
            spec_countdown_rel(*old(self), *final(self)),
    {
        if self.state.jump_timer > 0 {
            self.state.jump_timer = self.state.jump_timer - 1;
        }
        if self.state.chase_timer > 0 {
            self.state.chase_timer = self.state.chase_timer - 1;
            if self.state.chase_timer == 0 {
                self.clear_caught_flags();
            }
        }
        proof {
            assert forall|k: int| 0 <= k < self.state.enemies@.len() implies
                spec_mob_wf(#[trigger] self.state.enemies@[k], self.state.board) by {
                assert(spec_mob_wf(old(self).state.enemies@[k], old(self).state.board));
            }
        }
    }

    /// Frame stage five: when every box of the board is painted the level
    /// advances, the board is rebuilt fresh from the configured layout, and
    /// the movers respawn at their starts.
    fn check_level_advance(&mut self)
        requires
            old(self).wf(),
        ensures
            final(self).wf(),
            final(self).config == old(self).config,
            final(self).state.score == old(self).state.score,
            final(self).state.lives == old(self).state.lives,
            final(self).state.jumps == old(self).state.jumps,
            final(self).state.enemies@.len() == old(self).state.enemies@.len(),
            final(self).state.level == old(self).state.level || final(self).state.level
                == spec_sat_add(old(self).state.level as int, 1),
            spec_level_rel(*old(self), *final(self)),
    {
        if !self.board_complete() {
            return ;
        }
        let fresh = Board::try_new(&self.config.board);
        let fresh = match fresh {
            Some(b) => b,
            None => {
                // unreachable: a well-formed state carries a valid layout,
                // and a valid layout always builds
                proof {
                    assert(false);
                }
                return ;
            },
        };
        self.state.level = sat_add(self.state.level, 1);
        self.state.board = fresh;
        let spawn = spawn_tile(&self.state.board, &self.config.player_start);
        self.state.player.position = spawn.to_world();
        self.state.player.step = None;
        self.state.player.history = seeded_history(&self.state.board, &spawn);
        if let MovementAI::EnemyTargetPlayer { start, start_dir, vision_distance, dir, player_seen: _ } =
            self.state.player.ai {
            self.state.player.ai = MovementAI::EnemyTargetPlayer {
                start,
                start_dir,
                vision_distance,
                dir,
                player_seen: None,
            };
        }
        proof {
            lemma_tile_world_in_bounds(spawn, self.state.board);
            lemma_enemy_respawn_wf(
                old(self).state.player,
                self.state.player,
                old(self).state.board,
                self.state.board,
            );
            assert(self.state.player.history@ =~= seq![
                self.state.board.spec_index_of(spawn.tx as int, spawn.ty as int) as u32,
            ]);
            assert(self.state.player.model() == (crate::codec::MobModel {
                ai: spec_clear_lock(old(self).state.player.ai),
                position: spec_tile_world(spawn),
                caught: old(self).state.player.caught,
                speed: old(self).state.player.speed,
                step: None,
                history: seq![
                    self.state.board.spec_index_of(spawn.tx as int, spawn.ty as int) as u32,
                ],
            }));
        }
        let n = self.state.enemies.len();
        let mut i: usize = 0;
        while i < n
            invariant
                0 <= i <= n,
                n == self.state.enemies@.len(),
                n == old(self).state.enemies@.len(),
                old(self).wf(),
                self.state.board.wf(),
                crate::board::spec_board_from_layout(
                    self.config.board.deep_view(),
                    self.state.board,
                ),
                self.config == old(self).config,
                self.state.rand == old(self).state.rand,
                self.state.score == old(self).state.score,
                self.state.lives == old(self).state.lives,
                self.state.jumps == old(self).state.jumps,
                self.state.level == spec_sat_add(old(self).state.level as int, 1),
                self.state.chase_timer == old(self).state.chase_timer,
                self.state.jump_timer == old(self).state.jump_timer,
                self.state.jumps >= 0,
                self.state.chase_timer >= 0,
                self.state.jump_timer >= 0,
                spec_mob_wf(self.state.player, self.state.board),
                self.state.player.model() == (crate::codec::MobModel {
                    ai: spec_clear_lock(old(self).state.player.ai),
                    position: spec_tile_world(
                        spec_spawn_tile(self.state.board, self.config.player_start),
                    ),
                    caught: old(self).state.player.caught,
                    speed: old(self).state.player.speed,
                    step: None,
                    history: seq![
                        self.state.board.spec_index_of(
                            spec_spawn_tile(self.state.board, self.config.player_start).tx as int,
                            spec_spawn_tile(self.state.board, self.config.player_start).ty as int,
                        ) as u32,
                    ],
                }),
                spec_valid_layout(self.config.board.deep_view()),
                1 <= self.config.player_speed <= TILE_WORLD,
                1 <= self.config.enemy_starting_speed <= TILE_WORLD,
                self.config.chase_time >= 0,
                self.config.jump_time >= 0,
                self.config.box_bonus >= 0,
                self.config.chase_score_bonus >= 0,
                self.config.history_limit <= 0x1000,
                n <= 64,
                forall|k: int|
                    0 <= k < i ==> spec_mob_wf(#[trigger] self.state.enemies@[k], self.state.board),
                forall|k: int| i <= k < n ==> self.state.enemies@[k] == old(self).state.enemies@[k],
                forall|k: int|
                    i <= k < n ==> spec_mob_wf(
                        #[trigger] old(self).state.enemies@[k],
                        old(self).state.board,
                    ),
                forall|k: int|
                    0 <= k < i ==> (#[trigger] self.state.enemies@[k]).model()
                        == (crate::codec::MobModel {
                        ai: spec_clear_lock(old(self).state.enemies@[k].ai),
                        position: spec_tile_world(
                            spec_spawn_tile(
                                self.state.board,
                                spec_ai_start_tile(old(self).state.enemies@[k].ai),
                            ),
                        ),
                        caught: old(self).state.enemies@[k].caught,
                        speed: old(self).state.enemies@[k].speed,
                        step: None,
                        history: Seq::empty(),
                    }),
            decreases n - i,
        {
            let want = ai_start_tile(&self.state.enemies[i].ai);
            let spawn = spawn_tile(&self.state.board, &want);
            let m = vec_mut(&mut self.state.enemies, i);
            m.position = spawn.to_world();
            m.step = None;
            m.history = Vec::new();
            if let MovementAI::EnemyTargetPlayer { start, start_dir, vision_distance, dir, player_seen: _ } = m.ai {
                m.ai = MovementAI::EnemyTargetPlayer {
                    start,
                    start_dir,
                    vision_distance,
                    dir,
                    player_seen: None,
                };
            }
            proof {
                assert(spec_mob_wf(old(self).state.enemies@[i as int], old(self).state.board));
                lemma_tile_world_in_bounds(spawn, self.state.board);
                assert(spec_mob_wf(self.state.enemies@[i as int], self.state.board)) by {
                    lemma_enemy_respawn_wf(
                        old(self).state.enemies@[i as int],
                        self.state.enemies@[i as int],
                        old(self).state.board,
                        self.state.board,
                    );
                }
                assert(self.state.enemies@[i as int].history@ =~= Seq::<u32>::empty());
            }
            i = i + 1;
        }
    }

    /// Whether every box of the board is painted (and there is at least
    /// one box to paint).
    pub fn board_complete(&self) -> (r: bool)
        ensures
            r == (self.state.board.boxes@.len() > 0 && (forall|i: int|
                0 <= i < self.state.board.boxes@.len()
                    ==> (#[trigger] self.state.board.boxes@[i]).painted)),
    {
        if self.state.board.boxes.len() == 0 {
            return false;
        }
        let n = self.state.board.boxes.len();
        let mut i: usize = 0;
        while i < n
            invariant
                0 <= i <= n,
                n == self.state.board.boxes@.len(),
                forall|k: int| 0 <= k < i ==> (#[trigger] self.state.board.boxes@[k]).painted,
            decreases n - i,
        {
            if !self.state.board.boxes[i].painted {
                return false;
            }
            i = i + 1;
        }
        true
    }

    /// Advance the game by one frame: motion, decisions and painting,
    /// collision resolution, mode countdowns, and terminal conditions, in
    /// that fixed order — exactly as `spec_frame_rel` relates the state
    /// before and after, stage by stage.
    pub fn update_mut(&mut self, buttons: Input)
        requires
            old(self).wf(),
        ensures
            final(self).wf(),
            final(self).config == old(self).config,
            final(self).state.score >= old(self).state.score,
            final(self).state.lives == old(self).state.lives || final(self).state.lives
                == spec_sat_add(old(self).state.lives as int, -1),
            final(self).state.enemies@.len() == old(self).state.enemies@.len(),
            spec_frame_rel(*old(self), buttons, *final(self)),
    {
        self.advance_all_motion();
        let ghost g1 = *self;
        self.player_turn(buttons);
        let ghost g2 = *self;
        self.enemy_turns();
        let ghost g3 = *self;
        self.start_jump(buttons);
        let ghost g4 = *self;
        let _ = self.resolve_collision();
        let ghost g5 = *self;
        self.countdown_timers();
        let ghost g6 = *self;
        self.check_level_advance();
        proof {
            assert(spec_motion_rel(*old(self), g1));
            assert(spec_player_rel(g1, buttons, g2));
            assert(spec_enemy_rel(g2, g3));
            assert(spec_jump_rel(g3, buttons, g4));
            assert(spec_collision_rel(g4, g5));
            assert(spec_countdown_rel(g5, g6));
            assert(spec_level_rel(g6, *self));
            assert(spec_frame_rel(*old(self), buttons, *self));
        }
    }
}

/// Saturating multiplication on `i32`.
pub open spec fn spec_sat_mul(a: int, b: int) -> int {
    if a * b > i32::MAX {
        i32::MAX as int
    } else if a * b < i32::MIN {
        i32::MIN as int
    } else {
        a * b
    }
}

/// Saturating multiplication on `i32`.
pub fn sat_mul(a: i32, b: i32) -> (r: i32)
    ensures
        r == spec_sat_mul(a as int, b as int),
{
    proof {
        assert(-0x8000_0000_0000_0000 <= (a as int) * (b as int) < 0x8000_0000_0000_0000)
            by (nonlinear_arith)
            requires
                -0x8000_0000 <= a as int <= 0x7fff_ffff,
                -0x8000_0000 <= b as int <= 0x7fff_ffff,
        ;
    }
    let s: i64 = a as i64 * b as i64;
    if s > i32::MAX as i64 {
        i32::MAX
    } else if s < i32::MIN as i64 {
        i32::MIN
    } else {
        s as i32
    }
}

/// The tile of a row-major index.
fn tile_of_index(bd: &Board, idx: u32) -> (t: TilePoint)
    requires
        bd.wf_dims(),
        idx < bd.width * bd.height,
    ensures
        t.tx == idx as int % bd.width as int,
        t.ty == idx as int / bd.width as int,
        bd.spec_in_bounds(t.tx as int, t.ty as int),
{
    proof {
        crate::board::lemma_rm_decompose(idx as int, bd.width as int, bd.height as int);
    }
    let x = idx % bd.width;
    let y = idx / bd.width;
    TilePoint { tx: x as i32, ty: y as i32 }
}

/// A one-entry history holding the junction index of a spawn tile.
fn seeded_history(bd: &Board, spawn: &TilePoint) -> (h: Vec<u32>)
    requires
        bd.wf_dims(),
        bd.spec_in_bounds(spawn.tx as int, spawn.ty as int),
    ensures
        h@.len() == 1,
        h@[0] < bd.width * bd.height,
        h@[0] == bd.spec_index_of(spawn.tx as int, spawn.ty as int),
{
    proof {
        crate::board::mul_bounds(spawn.ty as int, bd.width as int, bd.height as int);
    }
    let idx: u32 = (spawn.ty as u32) * bd.width + (spawn.tx as u32);
    let mut h: Vec<u32> = Vec::new();
    h.push(idx);
    h
}

/// The wanted spawn tile if it is on the board, else the top-left cell.
fn spawn_tile(bd: &Board, want: &TilePoint) -> (t: TilePoint)
    requires
        bd.wf_dims(),
    ensures
        t == spec_spawn_tile(*bd, *want),
        bd.spec_in_bounds(t.tx as int, t.ty as int),
{
    if want.tx >= 0 && want.ty >= 0 && want.tx < bd.width as i32 && want.ty < bd.height as i32 {
        TilePoint { tx: want.tx, ty: want.ty }
    } else {
        TilePoint { tx: 0, ty: 0 }
    }
}

/// The tile a behaviour starts at, where it names one.
fn ai_start_tile(ai: &MovementAI) -> (t: TilePoint)
    ensures
        t == spec_ai_start_tile(*ai),
{
    match ai {
        MovementAI::Player => TilePoint { tx: 0, ty: 0 },
        MovementAI::EnemyLookupAI { .. } => TilePoint { tx: 0, ty: 0 },
        MovementAI::EnemyPerimeterAI { start } => TilePoint { tx: start.tx, ty: start.ty },
        MovementAI::EnemyAmidarMvmt { start, .. } => TilePoint { tx: start.tx, ty: start.ty },
        MovementAI::EnemyRandomMvmt { start, .. } => TilePoint { tx: start.tx, ty: start.ty },
        MovementAI::EnemyTargetPlayer { start, .. } => TilePoint { tx: start.tx, ty: start.ty },
    }
}

/// A respawned mover (same behaviour and speed, a fresh history on the
/// grid, no pending step, position on a grid tile) is sound for the board.
proof fn lemma_respawned_mob_wf(m1: Mob, m2: Mob, bd: Board)
    requires
        bd.wf_dims(),
        spec_mob_wf(m1, bd),
        m2.ai == m1.ai,
        m2.speed == m1.speed,
        m2.step is None,
        m2.history@.len() <= 0x10000,
        forall|k: int|
            0 <= k < m2.history@.len() ==> (#[trigger] m2.history@[k]) < bd.width * bd.height,
        0 <= m2.position.x <= (bd.width - 1) * TILE_WORLD,
        0 <= m2.position.y <= (bd.height - 1) * TILE_WORLD,
    ensures
        spec_mob_wf(m2, bd),
{
    match m2.ai {
        MovementAI::EnemyTargetPlayer { player_seen, .. } => {
            if let Some(t) = player_seen {
                assert(m1.ai matches MovementAI::EnemyTargetPlayer { player_seen: Some(t2), .. }
                    && t2 == t);
                assert(bd.spec_in_bounds(t.tx as int, t.ty as int));
            }
        },
        _ => {},
    }
}

/// A mover respawned onto a fresh board (lock cleared for target-seekers,
/// same speed, a fresh history on the new grid, no pending step, position on
/// the new grid) is sound for the new board.
proof fn lemma_enemy_respawn_wf(m1: Mob, m2: Mob, bd1: Board, bd2: Board)
    requires
        bd2.wf_dims(),
        spec_mob_wf(m1, bd1),
        m2.speed == m1.speed,
        m2.step is None,
        m2.history@.len() <= 0x10000,
        forall|k: int|
            0 <= k < m2.history@.len() ==> (#[trigger] m2.history@[k]) < bd2.width * bd2.height,
        0 <= m2.position.x <= (bd2.width - 1) * TILE_WORLD,
        0 <= m2.position.y <= (bd2.height - 1) * TILE_WORLD,
        m2.ai matches MovementAI::EnemyTargetPlayer { player_seen, .. } ==> player_seen is None,
    ensures
        spec_mob_wf(m2, bd2),
{
}

/// A tile on the grid has its world point inside the board's world extent.
proof fn lemma_tile_world_in_bounds(t: TilePoint, bd: Board)
    requires
        bd.wf_dims(),
        bd.spec_in_bounds(t.tx as int, t.ty as int),
    ensures
        0 <= t.tx * TILE_WORLD <= (bd.width - 1) * TILE_WORLD,
        0 <= t.ty * TILE_WORLD <= (bd.height - 1) * TILE_WORLD,
{
}

/// A bounded history push keeps every entry on the grid when the pushed
/// index is on the grid.
proof fn lemma_push_history_wf(h: Seq<u32>, j: u32, limit: u32, bd: Board)
    requires
        forall|k: int| 0 <= k < h.len() ==> (#[trigger] h[k]) < bd.width * bd.height,
        j < bd.width * bd.height,
        h.len() <= 0x10000,
        limit <= 0x1000,
    ensures
        forall|k: int|
            0 <= k < crate::mob::spec_push_history(h, j, limit).len() ==> (
            #[trigger] crate::mob::spec_push_history(h, j, limit)[k]) < bd.width * bd.height,
        crate::mob::spec_push_history(h, j, limit).len() <= 0x10000,
{
    let s = h.push(j);
    assert forall|k: int| 0 <= k < s.len() implies (#[trigger] s[k]) < bd.width * bd.height by {
        if k < h.len() {
            assert(s[k] == h[k]);
        }
    }
}

/// The snapshot text of a frame's mathematical content.
pub open spec fn spec_snapshot_text(m: crate::codec::CoreModel) -> Seq<char> {
    crate::snapshot::spec_render_words(crate::codec::enc_core(m))
}

/// What a snapshot text restores to: the words parsed and decoded, with the
/// whole stream consumed.
pub open spec fn spec_restore(text: Seq<char>) -> Option<crate::codec::CoreModel> {
    match crate::snapshot::spec_parse_words(text) {
        Option::Some(ts) => match crate::codec::dec_core(ts, 0) {
            Option::Some((m, j)) => if j == ts.len() {
                Some(m)
            } else {
                None
            },
            Option::None => None,
        },
        Option::None => None,
    }
}

/// LAW — snapshot round trip. Restoring the snapshot text of any frame
/// (with its counts in word range) reproduces the frame exactly: same
/// score, lives, level, timers, generator state, movers and board grid.
pub proof fn lemma_snapshot_round_trip(m: crate::codec::CoreModel)
    requires
        crate::codec::spec_core_model_valid(m),
    ensures
        spec_restore(spec_snapshot_text(m)) == Some(m),
{
    let ts = crate::codec::enc_core(m);
    crate::snapshot::lemma_text_round_trip(ts);
    assert(ts.subrange(0, ts.len() as int) =~= ts);
    crate::codec::lemma_core_round_trip(m, ts, 0);
}

/// The snapshot text of a configuration's mathematical content.
pub open spec fn spec_config_snapshot_text(m: crate::codec::ConfigModel) -> Seq<char> {
    crate::snapshot::spec_render_words(crate::codec::enc_config(m))
}

/// What a configuration snapshot text restores to.
pub open spec fn spec_restore_config(text: Seq<char>) -> Option<crate::codec::ConfigModel> {
    match crate::snapshot::spec_parse_words(text) {
        Option::Some(ts) => match crate::codec::dec_config(ts, 0) {
            Option::Some((m, j)) => if j == ts.len() {
                Some(m)
            } else {
                None
            },
            Option::None => None,
        },
        Option::None => None,
    }
}

/// LAW — configuration snapshot round trip. Restoring the snapshot text of
/// any coverable configuration reproduces it exactly.
pub proof fn lemma_config_snapshot_round_trip(m: crate::codec::ConfigModel)
    requires
        crate::codec::spec_config_model_valid(m),
    ensures
        spec_restore_config(spec_config_snapshot_text(m)) == Some(m),
{
    let ts = crate::codec::enc_config(m);
    crate::snapshot::lemma_text_round_trip(ts);
    assert(ts.subrange(0, ts.len() as int) =~= ts);
    crate::codec::lemma_config_round_trip(m, ts, 0);
}

impl Amidar {
    /// The complete textual snapshot of this configuration; `None` exactly
    /// when the configuration lies outside the codec's coverage (a board
    /// character outside the layout alphabet, or an oversized count).
    pub fn to_snapshot(&self) -> (r: Option<String>)
        ensures
            match r {
                Option::Some(s) => s@ == spec_config_snapshot_text(self.model())
                    && crate::codec::spec_config_model_valid(self.model()),
                Option::None => !crate::codec::spec_config_model_valid(self.model()),
            },
    {
        match crate::codec::encode_config(self) {
            Some(v) => Some(crate::snapshot::render_words(&v)),
            None => None,
        }
    }

    /// Restore a configuration from a snapshot text. Fails exactly when the
    /// text is not the complete snapshot of any configuration.
    pub fn from_snapshot(text: &str) -> (r: Option<Amidar>)
        ensures
            match r {
                Option::Some(c) => spec_restore_config(text@) == Some(c.model()),
                Option::None => spec_restore_config(text@) is None,
            },
    {
        let ts = match crate::snapshot::parse_words(text) {
            Some(ts) => ts,
            None => {
                return None;
            },
        };
        match crate::codec::decode_config(&ts, 0) {
            Some((c, j)) => if j == ts.len() {
                Some(c)
            } else {
                None
            },
            None => None,
        }
    }
}

/// A mover's soundness depends only on its mathematical content and the
/// board's.
proof fn lemma_mob_wf_congr(m1: Mob, m2: Mob, b1: Board, b2: Board)
    requires
        m1.model() == m2.model(),
        b1.width == b2.width,
        b1.height == b2.height,
    ensures
        spec_mob_wf(m1, b1) == spec_mob_wf(m2, b2),
{
    assert(m1.history@ == m2.history@);
}

/// A frame's well-formedness depends only on its mathematical content.
pub proof fn lemma_core_wf_congr(s1: StateCore, s2: StateCore)
    requires
        s1.model() == s2.model(),
    ensures
        s1.wf() == s2.wf(),
{
    assert(s1.model().enemies == s2.model().enemies);
    assert(s1.model().board == s2.model().board);
    assert(s1.board.tiles@ == s2.board.tiles@);
    crate::board::lemma_board_wf_congr(s1.board, s2.board);
    lemma_mob_wf_congr(s1.player, s2.player, s1.board, s2.board);
    assert(s1.enemies@.len() == s2.enemies@.len()) by {
        assert(s1.model().enemies =~= Seq::new(s1.enemies@.len(), |i: int| s1.enemies@[i].model()));
        assert(s2.model().enemies =~= Seq::new(s2.enemies@.len(), |i: int| s2.enemies@[i].model()));
        assert(s1.model().enemies.len() == s1.enemies@.len());
        assert(s2.model().enemies.len() == s2.enemies@.len());
    }
    assert forall|i: int| 0 <= i < s1.enemies@.len() implies
        spec_mob_wf(#[trigger] s1.enemies@[i], s1.board) == spec_mob_wf(s2.enemies@[i], s2.board) by {
        assert(s1.model().enemies[i] == s2.model().enemies[i]);
        assert(s1.model().enemies[i] == s1.enemies@[i].model());
        assert(s2.model().enemies[i] == s2.enemies@[i].model());
        assert(s1.enemies@[i].model() == s2.enemies@[i].model());
        lemma_mob_wf_congr(s1.enemies@[i], s2.enemies@[i], s1.board, s2.board);
    }
    if s1.wf() {
        assert forall|i: int| 0 <= i < s2.enemies@.len() implies spec_mob_wf(
            #[trigger] s2.enemies@[i],
            s2.board,
        ) by {
            assert(spec_mob_wf(s1.enemies@[i], s1.board));
        }
        assert(s2.wf());
    }
    if s2.wf() {
        assert forall|i: int| 0 <= i < s1.enemies@.len() implies spec_mob_wf(
            #[trigger] s1.enemies@[i],
            s1.board,
        ) by {
            assert(spec_mob_wf(s2.enemies@[i], s2.board));
        }
        assert(s1.wf());
    }
}

impl Mob {
    /// Check a mover of unknown provenance against a board.
    fn check_wf(&self, bd: &Board) -> (r: bool)
        requires
            bd.wf_dims(),
        ensures
            r == spec_mob_wf(*self, *bd),
    {
        let maxx = (bd.width as i32 - 1) * TILE_WORLD;
        let maxy = (bd.height as i32 - 1) * TILE_WORLD;
        if !(0 <= self.position.x && self.position.x <= maxx && 0 <= self.position.y
            && self.position.y <= maxy) {
            return false;
        }
        if !(1 <= self.speed && self.speed <= TILE_WORLD) {
            return false;
        }
        if let Some(t) = &self.step {
            if !(0 <= t.tx && t.tx < bd.width as i32 && 0 <= t.ty && t.ty < bd.height as i32) {
                return false;
            }
        }
        if let MovementAI::EnemyTargetPlayer { player_seen: Some(t), .. } = &self.ai {
            if !(0 <= t.tx && t.tx < bd.width as i32 && 0 <= t.ty && t.ty < bd.height as i32) {
                return false;
            }
        }
        if self.history.len() > 0x10000 {
            return false;
        }
        proof {
            crate::board::mul_bounds(0, bd.width as int, bd.height as int);
        }
        let n: u32 = bd.width * bd.height;
        let mut i: usize = 0;
        while i < self.history.len()
            invariant
                0 <= i <= self.history@.len(),
                n == bd.width * bd.height,
                forall|k: int| 0 <= k < i ==> (#[trigger] self.history@[k]) < n,
            decreases self.history@.len() - i,
        {
            if self.history[i] >= n {
                return false;
            }
            i = i + 1;
        }
        true
    }
}

impl StateCore {
    /// Check a frame of unknown provenance, for example one restored from a
    /// snapshot.
    pub fn check_wf(&self) -> (r: bool)
        ensures
            r == self.wf(),
    {
        if !self.board.check_wf() {
            return false;
        }
        if !self.player.check_wf(&self.board) {
            return false;
        }
        if self.enemies.len() > 64 {
            return false;
        }
        let mut i: usize = 0;
        while i < self.enemies.len()
            invariant
                0 <= i <= self.enemies@.len(),
                self.board.wf(),
                forall|k: int|
                    0 <= k < i ==> spec_mob_wf(#[trigger] self.enemies@[k], self.board),
            decreases self.enemies@.len() - i,
        {
            if !self.enemies[i].check_wf(&self.board) {
                return false;
            }
            i = i + 1;
        }
        self.chase_timer >= 0 && self.jump_timer >= 0 && self.jumps >= 0
    }

    /// The complete textual snapshot of this frame: every field is stored,
    /// nothing is re-derived on restore.
    pub fn to_snapshot(&self) -> (out: String)
        requires
            crate::codec::spec_core_model_valid(self.model()),
        ensures
            out@ == spec_snapshot_text(self.model()),
    {
        proof {
            assert forall|i: int| 0 <= i < self.enemies@.len() implies (
            #[trigger] self.enemies@[i]).history@.len() <= u32::MAX by {
                assert(crate::codec::spec_mob_model_valid(self.model().enemies[i]));
            }
        }
        let ts = crate::codec::encode_core(self);
        crate::snapshot::render_words(&ts)
    }

    /// Restore a frame from a snapshot text. Returns `None` exactly when the
    /// text is not the complete snapshot of any frame.
    pub fn from_snapshot(text: &str) -> (r: Option<StateCore>)
        ensures
            match r {
                Option::Some(st) => spec_restore(text@) == Some(st.model()),
                Option::None => spec_restore(text@) is None,
            },
    {
        let ts = match crate::snapshot::parse_words(text) {
            Some(ts) => ts,
            None => {
                return None;
            },
        };
        match crate::codec::decode_core(&ts, 0) {
            Some((st, j)) => if j == ts.len() {
                Some(st)
            } else {
                None
            },
            None => None,
        }
    }
}

/// What a configuration must satisfy for games to be generated from it.
pub open spec fn spec_config_valid(c: Amidar) -> bool {
    &&& spec_valid_layout(c.board.deep_view())
    &&& 1 <= c.player_speed <= TILE_WORLD
    &&& 1 <= c.enemy_starting_speed <= TILE_WORLD
    &&& c.chase_time >= 0
    &&& c.jump_time >= 0
    &&& c.box_bonus >= 0
    &&& c.chase_score_bonus >= 0
    &&& c.history_limit <= 0x1000
    &&& c.enemies@.len() <= 64
    &&& c.start_jumps >= 0
}

/// Deep equality of two configurations, by content.
pub open spec fn spec_config_same(a: Amidar, b: Amidar) -> bool {
    &&& a.rand == b.rand
    &&& a.board.deep_view() == b.board.deep_view()
    &&& a.player_start == b.player_start
    &&& a.bg_color == b.bg_color
    &&& a.player_color == b.player_color
    &&& a.unpainted_color == b.unpainted_color
    &&& a.painted_color == b.painted_color
    &&& a.enemy_color == b.enemy_color
    &&& a.inner_painted_color == b.inner_painted_color
    &&& a.start_lives == b.start_lives
    &&& a.start_jumps == b.start_jumps
    &&& a.render_images == b.render_images
    &&& a.chase_time == b.chase_time
    &&& a.chase_score_bonus == b.chase_score_bonus
    &&& a.jump_time == b.jump_time
    &&& a.box_bonus == b.box_bonus
    &&& a.default_board_bugs == b.default_board_bugs
    &&& a.enemies@ == b.enemies@
    &&& a.history_limit == b.history_limit
    &&& a.enemy_starting_speed == b.enemy_starting_speed
    &&& a.player_speed == b.player_speed
}

impl Amidar {
    /// An independent deep copy of this configuration.
    pub fn copy(&self) -> (c: Amidar)
        ensures
            spec_config_same(*self, c),
    {
        let mut board: Vec<String> = Vec::new();
        let mut i: usize = 0;
        while i < self.board.len()
            invariant
                0 <= i <= self.board@.len(),
                board@.len() == i,
                forall|k: int| 0 <= k < i ==> (#[trigger] board@[k])@ == self.board@[k]@,
            decreases self.board@.len() - i,
        {
            board.push(self.board[i].clone());
            i = i + 1;
        }
        let mut enemies: Vec<MovementAI> = Vec::new();
        let mut k: usize = 0;
        while k < self.enemies.len()
            invariant
                0 <= k <= self.enemies@.len(),
                enemies@ == self.enemies@.take(k as int),
            decreases self.enemies@.len() - k,
        {
            enemies.push(self.enemies[k]);
            proof {
                assert(enemies@ =~= self.enemies@.take(k + 1));
            }
            k = k + 1;
        }
        proof {
            assert(self.enemies@.take(self.enemies@.len() as int) =~= self.enemies@);
        }
        let c = Amidar {
            rand: Gen { state: self.rand.state },
            board,
            player_start: self.player_start,
            bg_color: self.bg_color,
            player_color: self.player_color,
            unpainted_color: self.unpainted_color,
            painted_color: self.painted_color,
            enemy_color: self.enemy_color,
            inner_painted_color: self.inner_painted_color,
            start_lives: self.start_lives,
            start_jumps: self.start_jumps,
            render_images: self.render_images,
            chase_time: self.chase_time,
            chase_score_bonus: self.chase_score_bonus,
            jump_time: self.jump_time,
            box_bonus: self.box_bonus,
            default_board_bugs: self.default_board_bugs,
            enemies,
            history_limit: self.history_limit,
            enemy_starting_speed: self.enemy_starting_speed,
            player_speed: self.player_speed,
        };
        proof {
            assert(c.board.deep_view() =~= self.board.deep_view());
        }
        c
    }

    /// Whether this configuration can generate games.
    pub fn check_valid(&self) -> (r: bool)
        ensures
            r == spec_config_valid(*self),
    {
        let layout_ok = match Board::try_new(&self.board) {
            Some(_) => true,
            None => false,
        };
        layout_ok && 1 <= self.player_speed && self.player_speed <= TILE_WORLD && 1
            <= self.enemy_starting_speed && self.enemy_starting_speed <= TILE_WORLD
            && self.chase_time >= 0 && self.jump_time >= 0 && self.box_bonus >= 0
            && self.chase_score_bonus >= 0 && self.history_limit <= 0x1000 && self.enemies.len()
            <= 64 && self.start_jumps >= 0
    }

    /// The fixed render dimensions in pixels: the board's tiles at four
    /// pixels each. Invalid layouts report a zero extent.
    pub fn game_size(&self) -> (r: (i32, i32))
        ensures
            ({
                let rows = self.board.deep_view();
                if 1 <= rows.len() <= 256 && 1 <= rows[0].len() <= 256 {
                    r.0 == rows[0].len() * 4 && r.1 == rows.len() * 4
                } else {
                    r == (0i32, 0i32)
                }
            }),
    {
        let h = self.board.len();
        if h < 1 || h > 256 {
            return (0, 0);
        }
        let w = self.board[0].as_str().unicode_len();
        if w < 1 || w > 256 {
            return (0, 0);
        }
        ((w as i32) * 4, (h as i32) * 4)
    }

    /// The legal action set of the learning-agent interface, in a fixed
    /// order.
    pub fn legal_action_set(&self) -> (r: Vec<crate::input::AleAction>)
        ensures
            r@ == seq![
                crate::input::AleAction::NOOP,
                crate::input::AleAction::FIRE,
                crate::input::AleAction::UP,
                crate::input::AleAction::RIGHT,
                crate::input::AleAction::LEFT,
                crate::input::AleAction::DOWN,
            ],
    {
        let mut r: Vec<crate::input::AleAction> = Vec::new();
        r.push(crate::input::AleAction::NOOP);
        r.push(crate::input::AleAction::FIRE);
        r.push(crate::input::AleAction::UP);
        r.push(crate::input::AleAction::RIGHT);
        r.push(crate::input::AleAction::LEFT);
        r.push(crate::input::AleAction::DOWN);
        proof {
            assert(r@ =~= seq![
                crate::input::AleAction::NOOP,
                crate::input::AleAction::FIRE,
                crate::input::AleAction::UP,
                crate::input::AleAction::RIGHT,
                crate::input::AleAction::LEFT,
                crate::input::AleAction::DOWN,
            ]);
        }
        r
    }

    /// Seed the generator; affects only subsequent randomized choices.
    pub fn reset_seed(&mut self, seed: u32)
        ensures
            final(self).rand.state == crate::random::spec_seed_state(seed),
            spec_config_same(*final(self), Amidar { rand: final(self).rand, ..*old(self) }),
    {
        self.rand = Gen::new(seed);
    }

    /// Generate a new game from this configuration. Succeeds exactly when
    /// the configuration is valid; consumes one draw of the configuration's
    /// generator to seed the game.
    pub fn new_game(&mut self) -> (r: Option<State>)
        ensures
            r is Some <==> spec_config_valid(*old(self)),
            spec_config_same(*final(self), Amidar { rand: final(self).rand, ..*old(self) }),
            r matches Some(st) ==> {
                &&& st.wf()
                &&& spec_config_same(st.config, Amidar { rand: st.config.rand, ..*old(self) })
                &&& st.state.score == 0
                &&& st.state.lives == old(self).start_lives
                &&& st.state.level == 1
                &&& st.state.jumps == old(self).start_jumps
                &&& st.state.chase_timer == 0
                &&& st.state.jump_timer == 0
                &&& st.state.enemies@.len() == old(self).enemies@.len()
                &&& crate::board::spec_board_from_layout(
                    old(self).board.deep_view(),
                    st.state.board,
                )
                &&& st.state.rand.state == crate::random::spec_seed_state(
                    crate::random::spec_next_state(old(self).rand.state),
                )
                &&& final(self).rand.state == crate::random::spec_next_state(old(self).rand.state)
                &&& st.state.player.model() == (crate::codec::MobModel {
                    ai: MovementAI::Player,
                    position: spec_tile_world(
                        spec_spawn_tile(st.state.board, old(self).player_start),
                    ),
                    caught: false,
                    speed: old(self).player_speed,
                    step: None,
                    history: seq![
                        st.state.board.spec_index_of(
                            spec_spawn_tile(st.state.board, old(self).player_start).tx as int,
                            spec_spawn_tile(st.state.board, old(self).player_start).ty as int,
                        ) as u32,
                    ],
                })
                &&& forall|i: int|
                    0 <= i < old(self).enemies@.len() ==> (#[trigger] st.state.enemies@[i]).model()
                        == (crate::codec::MobModel {
                        ai: spec_clear_lock(old(self).enemies@[i]),
                        position: spec_tile_world(
                            spec_spawn_tile(
                                st.state.board,
                                spec_ai_start_tile(old(self).enemies@[i]),
                            ),
                        ),
                        caught: false,
                        speed: old(self).enemy_starting_speed,
                        step: None,
                        history: Seq::empty(),
                    })
            },
    {
        if !self.check_valid() {
            return None;
        }
        let board = match Board::try_new(&self.board) {
            Some(b) => b,
            None => {
                return None;
            },
        };
        let seed = self.rand.next_u32();
        let spawn = spawn_tile(&board, &self.player_start);
        proof {
            lemma_tile_world_in_bounds(spawn, board);
        }
        let mut player = Mob::new(MovementAI::Player, spawn.to_world(), self.player_speed);
        player.history = seeded_history(&board, &spawn);
        let mut enemies: Vec<Mob> = Vec::new();
        let mut i: usize = 0;
        while i < self.enemies.len()
            invariant
                0 <= i <= self.enemies@.len(),
                board.wf(),
                1 <= self.enemy_starting_speed <= TILE_WORLD,
                enemies@.len() == i,
                forall|k: int| 0 <= k < i ==> spec_mob_wf(#[trigger] enemies@[k], board),
                forall|k: int|
                    0 <= k < i ==> (#[trigger] enemies@[k]).model() == (crate::codec::MobModel {
                        ai: spec_clear_lock(self.enemies@[k]),
                        position: spec_tile_world(
                            spec_spawn_tile(board, spec_ai_start_tile(self.enemies@[k])),
                        ),
                        caught: false,
                        speed: self.enemy_starting_speed,
                        step: None,
                        history: Seq::empty(),
                    }),
            decreases self.enemies@.len() - i,
        {
            let mut ai = self.enemies[i];
            if let MovementAI::EnemyTargetPlayer { start, start_dir, vision_distance, dir, player_seen: _ } =
                ai {
                ai = MovementAI::EnemyTargetPlayer {
                    start,
                    start_dir,
                    vision_distance,
                    dir,
                    player_seen: None,
                };
            }
            proof {
                assert(ai == spec_clear_lock(self.enemies@[i as int]));
                assert(spec_ai_start_tile(ai) == spec_ai_start_tile(self.enemies@[i as int]));
            }
            let espawn = spawn_tile(&board, &ai_start_tile(&ai));
            proof {
                lemma_tile_world_in_bounds(espawn, board);
            }
            let m = Mob::new(ai, espawn.to_world(), self.enemy_starting_speed);
            enemies.push(m);
            proof {
                assert(enemies@[enemies@.len() - 1].history@ =~= Seq::<u32>::empty());
            }
            i = i + 1;
        }
        let state = StateCore {
            rand: Gen::new(seed),
            score: 0,
            lives: self.start_lives,
            level: 1,
            jumps: self.start_jumps,
            chase_timer: 0,
            jump_timer: 0,
            player,
            enemies,
            board,
        };
        let config = self.copy();
        let st = State { config, state };
        proof {
            assert(st.config.board.deep_view() == self.board.deep_view());
            assert(st.wf());
            assert(st.state.player.history@ =~= seq![
                st.state.board.spec_index_of(spawn.tx as int, spawn.ty as int) as u32,
            ]);
        }
        Some(st)
    }

    /// Restore a game from a snapshot text, pairing it with this
    /// configuration. Fails exactly on texts that are not the snapshot of a
    /// sound frame.
    pub fn new_state_from_snapshot(&self, text: &str) -> (r: Option<State>)
        requires
            spec_config_valid(*self),
        ensures
            r matches Some(st) ==> {
                &&& st.wf()
                &&& spec_restore(text@) == Some(st.state.model())
                &&& spec_config_same(st.config, *self)
            },
            r is None ==> forall|s: StateCore|
                #[trigger] s.wf() ==> spec_restore(text@) != Some(s.model()),
    {
        let core = match StateCore::from_snapshot(text) {
            Some(c) => c,
            None => {
                proof {
                    assert forall|s: StateCore| #[trigger] s.wf() implies spec_restore(text@)
                        != Some(s.model()) by {}
                }
                return None;
            },
        };
        if !core.check_wf() {
            proof {
                assert forall|s: StateCore| #[trigger] s.wf() implies spec_restore(text@) != Some(
                    s.model(),
                ) by {
                    if spec_restore(text@) == Some(s.model()) {
                        lemma_core_wf_congr(core, s);
                    }
                }
            }
            return None;
        }
        let config = self.copy();
        Some(State { config, state: core })
    }
}

impl State {
    /// The complete textual snapshot of the current frame.
    pub fn to_snapshot(&self) -> (out: String)
        requires
            self.wf(),
        ensures
            out@ == spec_snapshot_text(self.state.model()),
    {
        proof {
            assert(crate::codec::spec_core_model_valid(self.state.model())) by {
                assert(spec_mob_wf(self.state.player, self.state.board));
                crate::board::mul_bounds(0, self.state.board.width as int, self.state.board.height as int);
                crate::board::lemma_sorted_len_bound(
                    self.state.board.junctions@,
                    (self.state.board.width * self.state.board.height) as int,
                );
                crate::board::lemma_sorted_len_bound(
                    self.state.board.chase_junctions@,
                    (self.state.board.width * self.state.board.height) as int,
                );
                assert forall|i: int| 0 <= i < self.state.model().enemies.len() implies
                    crate::codec::spec_mob_model_valid(
                    #[trigger] self.state.model().enemies[i]) by {
                    assert(spec_mob_wf(self.state.enemies@[i], self.state.board));
                    assert(self.state.model().enemies[i] == self.state.enemies@[i].model());
                }
            }
        }
        self.state.to_snapshot()
    }

    /// An independent deep copy of this state, sharing nothing with the
    /// original.
    pub fn copy(&self) -> (r: State)
        requires
            self.wf(),
        ensures
            r.wf(),
            r.state.model() == self.state.model(),
            spec_config_same(r.config, self.config),
    {
        let config = self.config.copy();
        let text = self.to_snapshot();
        proof {
            assert(crate::codec::spec_core_model_valid(self.state.model())) by {
                assert(spec_mob_wf(self.state.player, self.state.board));
                crate::board::mul_bounds(0, self.state.board.width as int, self.state.board.height as int);
                crate::board::lemma_sorted_len_bound(
                    self.state.board.junctions@,
                    (self.state.board.width * self.state.board.height) as int,
                );
                crate::board::lemma_sorted_len_bound(
                    self.state.board.chase_junctions@,
                    (self.state.board.width * self.state.board.height) as int,
                );
                assert forall|i: int| 0 <= i < self.state.model().enemies.len() implies
                    crate::codec::spec_mob_model_valid(
                    #[trigger] self.state.model().enemies[i]) by {
                    assert(spec_mob_wf(self.state.enemies@[i], self.state.board));
                    assert(self.state.model().enemies[i] == self.state.enemies@[i].model());
                }
            }
            lemma_snapshot_round_trip(self.state.model());
        }
        let core = match StateCore::from_snapshot(text.as_str()) {
            Some(c) => c,
            None => {
                // unreachable: the round-trip law says our own snapshot
                // always restores
                proof {
                    assert(false);
                }
                StateCore {
                    rand: Gen { state: 1 },
                    score: 0,
                    lives: 0,
                    level: 0,
                    jumps: 0,
                    chase_timer: 0,
                    jump_timer: 0,
                    player: Mob::new(MovementAI::Player, WorldPoint { x: 0, y: 0 }, 1),
                    enemies: Vec::new(),
                    board: Board {
                        tiles: Vec::new(),
                        width: 0,
                        height: 0,
                        junctions: Vec::new(),
                        chase_junctions: Vec::new(),
                        boxes: Vec::new(),
                    },
                }
            },
        };
        proof {
            lemma_core_wf_congr(self.state, core);
        }
        State { config, state: core }
    }
}

impl Default for Amidar {
    /// The stock configuration: the classic cross-hatched board with four
    /// chase-marked corner boxes and one enemy of each behaviour.
    fn default() -> (c: Amidar)
        ensures
            c.start_lives == 3,
            c.start_jumps == 4,
            c.player_speed == 8,
            c.enemy_starting_speed == 8,
            c.chase_time == 300,
            c.chase_score_bonus == 100,
            c.jump_time == 75,
            c.box_bonus == 50,
            c.history_limit == 12,
            c.enemies@.len() == 5,
            c.board@.len() == 7,
    {
        let mut board: Vec<String> = Vec::new();
        board.push("c===========c".to_owned());
        board.push("=   =   =   =".to_owned());
        board.push("=   =   =   =".to_owned());
        board.push("=============".to_owned());
        board.push("=   =   =   =".to_owned());
        board.push("=   =   =   =".to_owned());
        board.push("c===========c".to_owned());
        let mut enemies: Vec<MovementAI> = Vec::new();
        enemies.push(MovementAI::EnemyLookupAI { next: 0, default_route_index: 0 });
        enemies.push(MovementAI::EnemyPerimeterAI { start: TilePoint { tx: 0, ty: 0 } });
        enemies.push(MovementAI::EnemyAmidarMvmt {
            vert: Direction::Down,
            horiz: Direction::Right,
            start_vert: Direction::Down,
            start_horiz: Direction::Right,
            start: TilePoint { tx: 12, ty: 0 },
        });
        enemies.push(MovementAI::EnemyRandomMvmt {
            start: TilePoint { tx: 12, ty: 6 },
            start_dir: Direction::Left,
            dir: Direction::Left,
        });
        enemies.push(MovementAI::EnemyTargetPlayer {
            start: TilePoint { tx: 0, ty: 6 },
            start_dir: Direction::Right,
            vision_distance: 5,
            dir: Direction::Right,
            player_seen: None,
        });
        Amidar {
            rand: Gen::new(0x5eed),
            board,
            player_start: TilePoint { tx: 4, ty: 3 },
            bg_color: Color::black(),
            player_color: Color::rgb(255, 255, 153),
            unpainted_color: Color::rgb(148, 0, 211),
            painted_color: Color::rgb(255, 255, 30),
            enemy_color: Color::rgb(255, 50, 100),
            inner_painted_color: Color::rgb(255, 255, 0),
            start_lives: 3,
            start_jumps: 4,
            render_images: true,
            chase_time: 300,
            chase_score_bonus: 100,
            jump_time: 75,
            box_bonus: 50,
            default_board_bugs: false,
            enemies,
            history_limit: 12,
            enemy_starting_speed: 8,
            player_speed: 8,
        }
    }
}

/// Whether two strings hold the same characters.
pub fn str_eq(a: &str, b: &str) -> (r: bool)
    ensures
        r == (a@ == b@),
{
    let n = a.unicode_len();
    if n != b.unicode_len() {
        return false;
    }
    let mut i: usize = 0;
    while i < n
        invariant
            0 <= i <= n,
            n == a@.len(),
            n == b@.len(),
            forall|k: int| 0 <= k < i ==> a@[k] == b@[k],
        decreases n - i,
    {
        if a.get_char(i) != b.get_char(i) {
            return false;
        }
        i = i + 1;
    }
    proof {
        assert(a@ =~= b@);
    }
    true
}

/// The answer an introspection query deserves: the queried values as a
/// word stream, or a typed failure — unknown query names and malformed
/// arguments are reported, never thrown.
pub open spec fn spec_query(st: State, q: Seq<char>, args: Seq<char>) -> Result<
    Seq<u32>,
    crate::QueryError,
> {
    if q == "score"@ {
        Ok(seq![st.state.score as u32])
    } else if q == "lives"@ {
        Ok(seq![st.state.lives as u32])
    } else if q == "level"@ {
        Ok(seq![st.state.level as u32])
    } else if q == "jumps"@ {
        Ok(seq![st.state.jumps as u32])
    } else if q == "chase_timer"@ {
        Ok(seq![st.state.chase_timer as u32])
    } else if q == "board_size"@ {
        Ok(seq![st.state.board.width, st.state.board.height])
    } else if q == "player_tile"@ {
        Ok(
            seq![
                (st.state.player.position.x / TILE_WORLD) as u32,
                (st.state.player.position.y / TILE_WORLD) as u32,
            ],
        )
    } else if q == "num_enemies"@ {
        Ok(seq![st.state.enemies@.len() as u32])
    } else if q == "enemy_tile"@ {
        match crate::snapshot::spec_parse_words(args) {
            Option::Some(ts) => if ts.len() == 1 && ts[0] < st.state.enemies@.len() {
                Ok(
                    seq![
                        (st.state.enemies@[ts[0] as int].position.x / TILE_WORLD) as u32,
                        (st.state.enemies@[ts[0] as int].position.y / TILE_WORLD) as u32,
                    ],
                )
            } else {
                Err(crate::QueryError::BadInputArg)
            },
            Option::None => Err(crate::QueryError::BadInputArg),
        }
    } else {
        Err(crate::QueryError::NoSuchQuery)
    }
}

impl State {
    /// Run a named read-only introspection query with textual arguments;
    /// returns the answer as snapshot-format text, or the typed failure the
    /// specification assigns, without mutating anything.
    pub fn query(&self, q: &str, args: &str) -> (r: Result<String, crate::QueryError>)
        requires
            self.wf(),
        ensures
            match (r, spec_query(*self, q@, args@)) {
                (Result::Ok(s), Result::Ok(ts)) => s@ == crate::snapshot::spec_render_words(ts),
                (Result::Err(e1), Result::Err(e2)) => e1 == e2,
                _ => false,
            },
    {
        proof {
            crate::board::lemma_div_below(
                self.state.player.position.x as int,
                TILE_WORLD as int,
                self.state.board.width as int,
            );
            crate::board::lemma_div_below(
                self.state.player.position.y as int,
                TILE_WORLD as int,
                self.state.board.height as int,
            );
        }
        let mut vals: Vec<u32> = Vec::new();
        if str_eq(q, "score") {
            vals.push(self.state.score as u32);
        } else if str_eq(q, "lives") {
            vals.push(self.state.lives as u32);
        } else if str_eq(q, "level") {
            vals.push(self.state.level as u32);
        } else if str_eq(q, "jumps") {
            vals.push(self.state.jumps as u32);
        } else if str_eq(q, "chase_timer") {
            vals.push(self.state.chase_timer as u32);
        } else if str_eq(q, "board_size") {
            vals.push(self.state.board.width);
            vals.push(self.state.board.height);
        } else if str_eq(q, "player_tile") {
            vals.push((self.state.player.position.x / TILE_WORLD) as u32);
            vals.push((self.state.player.position.y / TILE_WORLD) as u32);
        } else if str_eq(q, "num_enemies") {
            vals.push(self.state.enemies.len() as u32);
        } else if str_eq(q, "enemy_tile") {
            let ts = match crate::snapshot::parse_words(args) {
                Some(ts) => ts,
                None => {
                    return Err(crate::QueryError::BadInputArg);
                },
            };
            if !(ts.len() == 1 && (ts[0] as usize) < self.state.enemies.len()) {
                return Err(crate::QueryError::BadInputArg);
            }
            let e = &self.state.enemies[ts[0] as usize];
            proof {
                assert(spec_mob_wf(self.state.enemies@[ts@[0] as int], self.state.board));
                crate::board::lemma_div_below(
                    e.position.x as int,
                    TILE_WORLD as int,
                    self.state.board.width as int,
                );
                crate::board::lemma_div_below(
                    e.position.y as int,
                    TILE_WORLD as int,
                    self.state.board.height as int,
                );
            }
            vals.push((e.position.x / TILE_WORLD) as u32);
            vals.push((e.position.y / TILE_WORLD) as u32);
        } else {
            return Err(crate::QueryError::NoSuchQuery);
        }
        proof {
            assert(vals@ =~= match spec_query(*self, q@, args@) {
                Result::Ok(ts) => ts,
                Result::Err(_) => vals@,
            });
        }
        Ok(crate::snapshot::render_words(&vals))
    }
}

/// The color a tile is drawn with.
pub open spec fn spec_tile_color(cfg: Amidar, t: crate::board::Tile) -> Color {
    match t {
        crate::board::Tile::Empty => cfg.bg_color,
        crate::board::Tile::Unpainted => cfg.unpainted_color,
        crate::board::Tile::ChaseMarker => cfg.unpainted_color,
        crate::board::Tile::Painted => cfg.painted_color,
    }
}

/// Screen pixels per tile edge.
pub const TILE_PIXELS: i32 = 4;

impl State {
    /// The drawable list of the current frame: a clear, one rectangle per
    /// board cell, one per enemy, the player, and six score digits — in
    /// that order, so a rasterizer paints back to front.
    pub fn draw(&self) -> (out: Vec<crate::graphics::Drawable>)
        requires
            self.wf(),
        ensures
            ({
                let w = self.state.board.width as int;
                let h = self.state.board.height as int;
                let n = self.state.enemies@.len() as int;
                &&& out@.len() == 2 + w * h + n + 6
                &&& out@[0] == crate::graphics::Drawable::Clear(self.config.bg_color)
                &&& forall|x: int, y: int|
                    self.state.board.spec_in_bounds(x, y)
                        ==> out@[1 + y * w + x] == (crate::graphics::Drawable::Rectangle {
                            color: spec_tile_color(
                                self.config,
                                #[trigger] self.state.board.spec_tile_at(x, y),
                            ),
                            x: (x * TILE_PIXELS) as i32,
                            y: (y * TILE_PIXELS) as i32,
                            w: TILE_PIXELS,
                            h: TILE_PIXELS,
                        })
                &&& forall|k: int|
                    0 <= k < n ==> out@[1 + w * h + k] == (crate::graphics::Drawable::Rectangle {
                        color: self.config.enemy_color,
                        x: ((#[trigger] self.state.enemies@[k]).position.x
                            / crate::geometry::WORLD_PER_PIXEL) as i32,
                        y: (self.state.enemies@[k].position.y
                            / crate::geometry::WORLD_PER_PIXEL) as i32,
                        w: TILE_PIXELS,
                        h: TILE_PIXELS,
                    })
                &&& out@[1 + w * h + n] == (crate::graphics::Drawable::Rectangle {
                    color: self.config.player_color,
                    x: (self.state.player.position.x / crate::geometry::WORLD_PER_PIXEL) as i32,
                    y: (self.state.player.position.y / crate::geometry::WORLD_PER_PIXEL) as i32,
                    w: TILE_PIXELS,
                    h: TILE_PIXELS,
                })
                &&& forall|k: int|
                    0 <= k < 6 ==> #[trigger] out@[2 + w * h + n + k] == (crate::graphics::Drawable::DigitSprite {
                        x: (48 - 8 * k) as i32,
                        y: 2,
                        digit: (((crate::board::spec_max(self.state.score as int, 0)
                            / crate::snapshot::spec_pow10(k as nat) as int) % 10)) as u8,
                        color: self.config.player_color,
                    })
            }),
    {
        let w = self.state.board.width;
        let h = self.state.board.height;
        let mut out: Vec<crate::graphics::Drawable> = Vec::new();
        out.push(crate::graphics::Drawable::Clear(self.config.bg_color));
        proof {
            crate::board::mul_bounds(0, w as int, h as int);
        }
        let n: u32 = w * h;
        let mut idx: u32 = 0;
        while idx < n
            invariant
                self.wf(),
                w == self.state.board.width,
                h == self.state.board.height,
                n == w * h,
                n <= 65536,
                0 <= idx <= n,
                out@.len() == 1 + idx,
                out@[0] == crate::graphics::Drawable::Clear(self.config.bg_color),
                forall|x: int, y: int|
                    self.state.board.spec_in_bounds(x, y) && y * w + x < idx
                        ==> out@[1 + y * w + x] == (crate::graphics::Drawable::Rectangle {
                            color: spec_tile_color(
                                self.config,
                                #[trigger] self.state.board.spec_tile_at(x, y),
                            ),
                            x: (x * TILE_PIXELS) as i32,
                            y: (y * TILE_PIXELS) as i32,
                            w: TILE_PIXELS,
                            h: TILE_PIXELS,
                        }),
            decreases n - idx,
        {
            let x = idx % w;
            let y = idx / w;
            proof {
                crate::board::lemma_rm_decompose(idx as int, w as int, h as int);
            }
            let t = self.state.board.tile_at(x, y);
            let color = match t {
                crate::board::Tile::Empty => self.config.bg_color,
                crate::board::Tile::Unpainted => self.config.unpainted_color,
                crate::board::Tile::ChaseMarker => self.config.unpainted_color,
                crate::board::Tile::Painted => self.config.painted_color,
            };
            out.push(crate::graphics::Drawable::Rectangle {
                color,
                x: (x as i32) * TILE_PIXELS,
                y: (y as i32) * TILE_PIXELS,
                w: TILE_PIXELS,
                h: TILE_PIXELS,
            });
            proof {
                assert forall|x2: int, y2: int|
                    self.state.board.spec_in_bounds(x2, y2) && y2 * w + x2 < idx + 1 implies out@[1
                    + y2 * w + x2] == (crate::graphics::Drawable::Rectangle {
                    color: spec_tile_color(
                        self.config,
                        #[trigger] self.state.board.spec_tile_at(x2, y2),
                    ),
                    x: (x2 * TILE_PIXELS) as i32,
                    y: (y2 * TILE_PIXELS) as i32,
                    w: TILE_PIXELS,
                    h: TILE_PIXELS,
                }) by {
                    crate::board::lemma_rm_inj(w as int, x2, y2, x as int, y as int);
                }
            }
            idx = idx + 1;
        }
        let ghost base1 = out@;
        let ne = self.state.enemies.len();
        let mut k: usize = 0;
        while k < ne
            invariant
                self.wf(),
                w == self.state.board.width,
                h == self.state.board.height,
                n == w * h,
                ne == self.state.enemies@.len(),
                0 <= k <= ne,
                base1.len() == 1 + n,
                out@.len() == 1 + n + k,
                forall|i: int| 0 <= i < base1.len() ==> out@[i] == base1[i],
                forall|j: int|
                    0 <= j < k ==> out@[1 + n + j] == (crate::graphics::Drawable::Rectangle {
                        color: self.config.enemy_color,
                        x: ((#[trigger] self.state.enemies@[j]).position.x
                            / crate::geometry::WORLD_PER_PIXEL) as i32,
                        y: (self.state.enemies@[j].position.y
                            / crate::geometry::WORLD_PER_PIXEL) as i32,
                        w: TILE_PIXELS,
                        h: TILE_PIXELS,
                    }),
            decreases ne - k,
        {
            let e = &self.state.enemies[k];
            proof {
                assert(spec_mob_wf(self.state.enemies@[k as int], self.state.board));
            }
            out.push(crate::graphics::Drawable::Rectangle {
                color: self.config.enemy_color,
                x: e.position.x / crate::geometry::WORLD_PER_PIXEL,
                y: e.position.y / crate::geometry::WORLD_PER_PIXEL,
                w: TILE_PIXELS,
                h: TILE_PIXELS,
            });
            k = k + 1;
        }
        out.push(crate::graphics::Drawable::Rectangle {
            color: self.config.player_color,
            x: self.state.player.position.x / crate::geometry::WORLD_PER_PIXEL,
            y: self.state.player.position.y / crate::geometry::WORLD_PER_PIXEL,
            w: TILE_PIXELS,
            h: TILE_PIXELS,
        });
        let ghost base2 = out@;
        proof {
            assert(base2.len() == 2 + n + ne);
            assert forall|i: int| 0 <= i < base1.len() implies base2[i] == base1[i] by {}
            assert forall|j: int| 0 <= j < ne implies #[trigger] base2[1 + n + j]
                == (crate::graphics::Drawable::Rectangle {
                color: self.config.enemy_color,
                x: (self.state.enemies@[j].position.x / crate::geometry::WORLD_PER_PIXEL) as i32,
                y: (self.state.enemies@[j].position.y / crate::geometry::WORLD_PER_PIXEL) as i32,
                w: TILE_PIXELS,
                h: TILE_PIXELS,
            }) by {}
            assert(base2[1 + n + ne] == (crate::graphics::Drawable::Rectangle {
                color: self.config.player_color,
                x: (self.state.player.position.x / crate::geometry::WORLD_PER_PIXEL) as i32,
                y: (self.state.player.position.y / crate::geometry::WORLD_PER_PIXEL) as i32,
                w: TILE_PIXELS,
                h: TILE_PIXELS,
            }));
        }
        let sc: i32 = if self.state.score < 0 {
            0
        } else {
            self.state.score
        };
        let mut d: u32 = 0;
        while d < 6
            invariant
                0 <= d <= 6,
                0 <= sc,
                sc == crate::board::spec_max(self.state.score as int, 0),
                base2.len() == 2 + n + ne,
                out@.len() == base2.len() + d,
                forall|i: int| 0 <= i < base2.len() ==> out@[i] == base2[i],
                forall|j: int|
                    0 <= j < d ==> #[trigger] out@[base2.len() + j] == (crate::graphics::Drawable::DigitSprite {
                        x: (48 - 8 * j) as i32,
                        y: 2,
                        digit: ((sc as int / crate::snapshot::spec_pow10(j as nat) as int)
                            % 10) as u8,
                        color: self.config.player_color,
                    }),
            decreases 6 - d,
        {
            let p = crate::snapshot::pow10(d);
            let digit: u8 = ((sc as u64 / p) % 10) as u8;
            proof {
                crate::board::lemma_div_below(sc as int, 1, 0x80000000);
                vstd::arithmetic::div_mod::lemma_div_pos_is_pos(sc as int, p as int);
                vstd::arithmetic::div_mod::lemma_mod_bound(sc as int / p as int, 10);
            }
            out.push(crate::graphics::Drawable::DigitSprite {
                x: 48 - 8 * (d as i32),
                y: 2,
                digit,
                color: self.config.player_color,
            });
            d = d + 1;
        }
        proof {
            assert forall|x: int, y: int|
                self.state.board.spec_in_bounds(x, y) implies out@[1 + y * (self.state.board.width as int) + x]
                == (crate::graphics::Drawable::Rectangle {
                color: spec_tile_color(
                    self.config,
                    #[trigger] self.state.board.spec_tile_at(x, y),
                ),
                x: (x * TILE_PIXELS) as i32,
                y: (y * TILE_PIXELS) as i32,
                w: TILE_PIXELS,
                h: TILE_PIXELS,
            }) by {
                crate::board::mul_bounds(y, w as int, h as int);
                assert(base2[1 + y * (w as int) + x] == base1[1 + y * (w as int) + x]);
                assert(out@[1 + y * (w as int) + x] == base2[1 + y * (w as int) + x]);
            }
            assert forall|k: int| 0 <= k < ne implies #[trigger] out@[1 + (w as int) * (h as int)
                + k] == (crate::graphics::Drawable::Rectangle {
                color: self.config.enemy_color,
                x: (self.state.enemies@[k].position.x / crate::geometry::WORLD_PER_PIXEL) as i32,
                y: (self.state.enemies@[k].position.y / crate::geometry::WORLD_PER_PIXEL) as i32,
                w: TILE_PIXELS,
                h: TILE_PIXELS,
            }) by {
                assert(1 + (w as int) * (h as int) + k == 1 + n + k);
                assert(out@[1 + n + k] == base2[1 + n + k]);
                assert(base2[1 + n + k] == (crate::graphics::Drawable::Rectangle {
                    color: self.config.enemy_color,
                    x: (self.state.enemies@[k].position.x / crate::geometry::WORLD_PER_PIXEL) as i32,
                    y: (self.state.enemies@[k].position.y / crate::geometry::WORLD_PER_PIXEL) as i32,
                    w: TILE_PIXELS,
                    h: TILE_PIXELS,
                }));
            }
            assert(out@[1 + (w as int) * (h as int) + ne] == base2[1 + n + ne]);
            assert forall|k: int| 0 <= k < 6 implies #[trigger] out@[2 + (w as int) * (h as int)
                + ne + k] == (crate::graphics::Drawable::DigitSprite {
                x: (48 - 8 * k) as i32,
                y: 2,
                digit: ((crate::board::spec_max(self.state.score as int, 0)
                    / crate::snapshot::spec_pow10(k as nat) as int % 10)) as u8,
                color: self.config.player_color,
            }) by {
                assert(2 + (w as int) * (h as int) + ne + k == base2.len() + k);
                assert(out@[base2.len() + k] == (crate::graphics::Drawable::DigitSprite {
                    x: (48 - 8 * k) as i32,
                    y: 2,
                    digit: ((sc as int / crate::snapshot::spec_pow10(k as nat) as int) % 10) as u8,
                    color: self.config.player_color,
                }));
            }
        }
        out
    }
}

/// The catch index reported by the collision scan is a valid enemy index.
proof fn lemma_collision_catch_in_range(
    enemies: Seq<Mob>,
    ptile: TilePoint,
    chase: bool,
    i: int,
    caught: usize,
)
    requires
        0 <= i,
        enemies.len() <= usize::MAX,
        spec_collision_from(enemies, ptile, chase, i) == EnemyPlayerState::EnemyCatch(caught),
    ensures
        i <= caught < enemies.len(),
    decreases enemies.len() - i,
{
    if i < enemies.len() {
        let overlap = spec_mob_tile(enemies[i]) == ptile;
        if overlap && !chase {
        } else if overlap && chase && !enemies[i].caught {
            assert(EnemyPlayerState::EnemyCatch(i as usize) == EnemyPlayerState::EnemyCatch(caught));
            assert(caught == i as usize);
        } else {
            lemma_collision_catch_in_range(enemies, ptile, chase, i + 1, caught);
        }
    }
}

} // verus!
