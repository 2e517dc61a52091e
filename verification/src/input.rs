//! Per-frame input: a fixed small set of boolean directional and button
//! flags, plus the discrete action alphabet a learning-agent host speaks.

use vstd::prelude::*;

verus! {

/// The buttons pressed during one frame.
#[derive(Debug, Clone, Copy, PartialEq, Eq, Default, Structural)]
pub struct Input {
    pub left: bool,
    pub right: bool,
    pub up: bool,
    pub down: bool,
    pub button1: bool,
    pub button2: bool,
}

impl Input {
    /// An input with no buttons pressed.
    pub fn new() -> (i: Input)
        ensures
            i == (Input { left: false, right: false, up: false, down: false, button1: false, button2: false }),
    {
        Input { left: false, right: false, up: false, down: false, button1: false, button2: false }
    }
}

/// The discrete action set of the learning-agent interface: each action is a
/// fixed combination of directional and fire flags.
#[derive(Debug, Clone, Copy, PartialEq, Eq, Structural)]
pub enum AleAction {
    NOOP,
    FIRE,
    UP,
    RIGHT,
    LEFT,
    DOWN,
    UPFIRE,
    RIGHTFIRE,
    LEFTFIRE,
    DOWNFIRE,
}

impl AleAction {
    /// The numeric code of this action in the host protocol.
    pub fn to_int(&self) -> (r: i32)
        ensures
            r == self.spec_int(),
    {
        match self {
            AleAction::NOOP => 0,
            AleAction::FIRE => 1,
            AleAction::UP => 2,
            AleAction::RIGHT => 3,
            AleAction::LEFT => 4,
            AleAction::DOWN => 5,
            AleAction::UPFIRE => 10,
            AleAction::RIGHTFIRE => 11,
            AleAction::LEFTFIRE => 12,
            AleAction::DOWNFIRE => 13,
        }
    }

    /// The numeric code, as a mathematical function.
    pub open spec fn spec_int(self) -> int {
        match self {
            AleAction::NOOP => 0,
            AleAction::FIRE => 1,
            AleAction::UP => 2,
            AleAction::RIGHT => 3,
            AleAction::LEFT => 4,
            AleAction::DOWN => 5,
            AleAction::UPFIRE => 10,
            AleAction::RIGHTFIRE => 11,
            AleAction::LEFTFIRE => 12,
            AleAction::DOWNFIRE => 13,
        }
    }

    /// Decode a numeric action code; `None` for a code outside the alphabet.
    pub fn from_int(code: i32) -> (r: Option<AleAction>)
        ensures
            r matches Some(a) ==> a.spec_int() == code,
            r is None <==> !(code == 0 || code == 1 || code == 2 || code == 3 || code == 4
                || code == 5 || code == 10 || code == 11 || code == 12 || code == 13),
    {
        match code {
            0 => Some(AleAction::NOOP),
            1 => Some(AleAction::FIRE),
            2 => Some(AleAction::UP),
            3 => Some(AleAction::RIGHT),
            4 => Some(AleAction::LEFT),
            5 => Some(AleAction::DOWN),
            10 => Some(AleAction::UPFIRE),
            11 => Some(AleAction::RIGHTFIRE),
            12 => Some(AleAction::LEFTFIRE),
            13 => Some(AleAction::DOWNFIRE),
            _ => None,
        }
    }

    /// The button flags this action stands for.
    pub fn to_input(&self) -> (i: Input)
        ensures
            i.up == (self is UP || self is UPFIRE),
            i.down == (self is DOWN || self is DOWNFIRE),
            i.left == (self is LEFT || self is LEFTFIRE),
            i.right == (self is RIGHT || self is RIGHTFIRE),
            i.button1 == (self is FIRE || self is UPFIRE || self is RIGHTFIRE
                || self is LEFTFIRE || self is DOWNFIRE),
            i.button2 == false,
    {
        let mut i = Input::new();
        match self {
            AleAction::NOOP => {},
            AleAction::FIRE => {
                i.button1 = true;
            },
            AleAction::UP => {
                i.up = true;
            },
            AleAction::RIGHT => {
                i.right = true;
            },
            AleAction::LEFT => {
                i.left = true;
            },
            AleAction::DOWN => {
                i.down = true;
            },
            AleAction::UPFIRE => {
                i.up = true;
                i.button1 = true;
            },
            AleAction::RIGHTFIRE => {
                i.right = true;
                i.button1 = true;
            },
            AleAction::LEFTFIRE => {
                i.left = true;
                i.button1 = true;
            },
            AleAction::DOWNFIRE => {
                i.down = true;
                i.button1 = true;
            },
        }
        i
    }
}

} // verus!
