//! A minimal side-scrolling game on the same simulation contract: integer
//! positions, a frame timer, directional input. It shows the contract at its
//! simplest, next to the maze-chase game at its fullest.

use vstd::prelude::*;

use crate::amidar::sat_add;
use crate::amidar::spec_sat_add;
use crate::geometry::ScreenPoint;
use crate::input::Input;

verus! {

/// The configuration of the side-scroller.
#[derive(Debug, Clone, Copy, PartialEq, Eq, Structural)]
pub struct Pitfall {
    /// Where the player starts, in screen coordinates.
    pub player_start: ScreenPoint,
    /// Frames per second; the timer display divides by this.
    pub frame_rate: i32,
}

/// The player: a screen position.
#[derive(Debug, Clone, Copy, PartialEq, Eq, Structural)]
pub struct Player {
    pub x: i32,
    pub y: i32,
}

/// The mutable per-frame snapshot.
#[derive(Debug, Clone, Copy, PartialEq, Eq, Structural)]
pub struct StateCore {
    /// Points earned; the game starts with a grubstake.
    pub score: i32,
    /// Lives left.
    pub lives: i32,
    /// Current level, 1-based.
    pub level: i32,
    /// Frames until the game clock runs out.
    pub frames_remaining: i32,
    /// The player.
    pub player: Player,
}

/// A game state: its configuration and the current frame.
#[derive(Debug, Clone, Copy, PartialEq, Eq, Structural)]
pub struct State {
    /// The config that generated this game.
    pub config: Pitfall,
    /// The current frame.
    pub state: StateCore,
}

impl Default for Pitfall {
    /// The stock configuration.
    fn default() -> (c: Pitfall)
        ensures
            c.player_start == (ScreenPoint { sx: 20, sy: 124 }),
            c.frame_rate == 60,
    {
        Pitfall { player_start: ScreenPoint { sx: 20, sy: 124 }, frame_rate: 60 }
    }
}

impl StateCore {
    /// The opening frame a configuration generates: the classic grubstake
    /// of 2000 points, two lives, twenty minutes on the clock.
    pub fn from_config(cfg: &Pitfall) -> (s: StateCore)
        requires
            0 <= 1200 * cfg.frame_rate <= i32::MAX,
        ensures
            s.score == 2000,
            s.lives == 2,
            s.level == 1,
            s.frames_remaining == 60 * 20 * cfg.frame_rate,
            s.player.x == cfg.player_start.sx,
            s.player.y == cfg.player_start.sy,
    {
        let fr = cfg.frame_rate;
        let frames: i32 = 1200 * fr;
        proof {
            assert(frames == 60 * 20 * cfg.frame_rate);
        }
        StateCore {
            score: 2000,
            lives: 2,
            level: 1,
            frames_remaining: frames,
            player: Player { x: cfg.player_start.sx, y: cfg.player_start.sy },
        }
    }
}

impl Pitfall {
    /// Generate a new game.
    pub fn new_game(&self) -> (st: State)
        requires
            0 <= 1200 * self.frame_rate <= i32::MAX,
        ensures
            st.config == *self,
            st.state.score == 2000,
            st.state.lives == 2,
            st.state.level == 1,
            st.state.frames_remaining == 60 * 20 * self.frame_rate,
            st.state.player.x == self.player_start.sx,
            st.state.player.y == self.player_start.sy,
    {
        State { config: Pitfall { player_start: self.player_start, frame_rate: self.frame_rate }, state: StateCore::from_config(self) }
    }
}

impl State {
    /// Lives left.
    pub fn lives(&self) -> (r: i32)
        ensures
            r == self.state.lives,
    {
        self.state.lives
    }

    /// The score.
    pub fn score(&self) -> (r: i32)
        ensures
            r == self.state.score,
    {
        self.state.score
    }

    /// The current level.
    pub fn level(&self) -> (r: i32)
        ensures
            r == self.state.level,
    {
        self.state.level
    }

    /// Advance one frame: the clock ticks down and the player walks one
    /// pixel per frame, leftward input winning over rightward.
    pub fn update_mut(&mut self, buttons: Input)
        ensures
            final(self).config == old(self).config,
            final(self).state.score == old(self).state.score,
            final(self).state.lives == old(self).state.lives,
            final(self).state.level == old(self).state.level,
            final(self).state.frames_remaining == spec_sat_add(
                old(self).state.frames_remaining as int,
                -1,
            ),
            final(self).state.player.y == old(self).state.player.y,
            final(self).state.player.x == (if buttons.left {
                spec_sat_add(old(self).state.player.x as int, -1)
            } else if buttons.right {
                spec_sat_add(old(self).state.player.x as int, 1)
            } else {
                old(self).state.player.x as int
            }),
    {
        self.state.frames_remaining = sat_add(self.state.frames_remaining, -1);
        if buttons.left {
            self.state.player.x = sat_add(self.state.player.x, -1);
        } else if buttons.right {
            self.state.player.x = sat_add(self.state.player.x, 1);
        }
    }
}

} // verus!
