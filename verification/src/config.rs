//! The constants of a simulation, checked once when they are put together.

use vstd::prelude::*;
use crate::entity::AssetHandle;
use crate::geometry::WinSize;

verus! {

/// The fixed timestep used when none is given: a sixtieth of a second, in nanoseconds.
pub const DEFAULT_TIMESTEP: u32 = 16_666_667;

/// The speed scale used when none is given, in world units per second.
pub const DEFAULT_SPEED_SCALE: u32 = 500;

/// The despawn margin used when none is given: a hundred world units, in fixed-point steps.
pub const DEFAULT_MARGIN: i64 = 100_000;

/// The number of frames of an explosion when none is given.
pub const DEFAULT_FRAME_COUNT: u32 = 16;

/// The time one explosion frame is shown when none is given, in nanoseconds.
pub const DEFAULT_FRAME_PERIOD: u64 = 50_000_000;

/// The constants of a simulation, as the caller states them.
#[derive(Clone, Copy, Debug, PartialEq, Eq)]
pub struct Params {
    /// The playfield, in fixed-point steps.
    pub win: WinSize,
    /// The fixed timestep of the movement system, in nanoseconds.
    pub timestep: u32,
    /// World units covered per second at a velocity of one.
    pub speed_scale: u32,
    /// How far beyond the playfield an entity may stray before it is removed, in fixed-point steps.
    pub margin: i64,
    /// The number of frames of an explosion.
    pub frame_count: u32,
    /// The time one explosion frame is shown, in nanoseconds.
    pub frame_period: u64,
    /// The sprite sheet stamped on every explosion.
    pub explosion_sheet: AssetHandle,
}

/// Why a set of constants was turned down.
#[derive(Clone, Copy, Debug, PartialEq, Eq)]
pub enum ConfigError {
    EmptyPlayfield,
    ZeroTimestep,
    ZeroSpeedScale,
    NegativeMargin,
    ZeroFrameCount,
    ZeroFramePeriod,
}

/// Constants that have passed the checks.
#[derive(Clone, Copy, Debug)]
pub struct Config {
    params: Params,
}

impl Params {
    /// The first thing wrong with these constants, if anything is.
    pub open spec fn fault(self) -> Option<ConfigError> {
        if self.win.w <= 0 || self.win.h <= 0 {
            Some(ConfigError::EmptyPlayfield)
        } else if self.timestep == 0 {
            Some(ConfigError::ZeroTimestep)
        } else if self.speed_scale == 0 {
            Some(ConfigError::ZeroSpeedScale)
        } else if self.margin < 0 {
            Some(ConfigError::NegativeMargin)
        } else if self.frame_count == 0 {
            Some(ConfigError::ZeroFrameCount)
        } else if self.frame_period == 0 {
            Some(ConfigError::ZeroFramePeriod)
        } else {
            None
        }
    }

    /// Whether nothing is wrong with these constants.
    pub open spec fn valid(self) -> bool {
        &&& self.win.w > 0
        &&& self.win.h > 0
        &&& self.timestep > 0
        &&& self.speed_scale > 0
        &&& self.margin >= 0
        &&& self.frame_count > 0
        &&& self.frame_period > 0
    }

    /// The constants used when only the playfield and the sprite sheet are given.
    pub open spec fn standard(win: WinSize, explosion_sheet: AssetHandle) -> Params {
        Params {
            win,
            timestep: DEFAULT_TIMESTEP,
            speed_scale: DEFAULT_SPEED_SCALE,
            margin: DEFAULT_MARGIN,
            frame_count: DEFAULT_FRAME_COUNT,
            frame_period: DEFAULT_FRAME_PERIOD,
            explosion_sheet,
        }
    }

    /// Fills in every constant but the playfield and the sprite sheet.
    pub fn defaults(win: WinSize, explosion_sheet: AssetHandle) -> (p: Params)
        ensures
            p == Params::standard(win, explosion_sheet),
    {
        Params {
            win,
            timestep: DEFAULT_TIMESTEP,
            speed_scale: DEFAULT_SPEED_SCALE,
            margin: DEFAULT_MARGIN,
            frame_count: DEFAULT_FRAME_COUNT,
            frame_period: DEFAULT_FRAME_PERIOD,
            explosion_sheet,
        }
    }

    /// Looks for the first thing wrong with these constants.
    pub fn check(&self) -> (r: Option<ConfigError>)
        ensures
            r == self.fault(),
            r is None <==> self.valid(),
    {
        if self.win.w <= 0 || self.win.h <= 0 {
            Some(ConfigError::EmptyPlayfield)
        } else if self.timestep == 0 {
            Some(ConfigError::ZeroTimestep)
        } else if self.speed_scale == 0 {
            Some(ConfigError::ZeroSpeedScale)
        } else if self.margin < 0 {
            Some(ConfigError::NegativeMargin)
        } else if self.frame_count == 0 {
            Some(ConfigError::ZeroFrameCount)
        } else if self.frame_period == 0 {
            Some(ConfigError::ZeroFramePeriod)
        } else {
            None
        }
    }
}

impl ConfigError {
    /// What the error says, as a sequence of characters.
    pub open spec fn text(self) -> Seq<char> {
        match self {
            ConfigError::EmptyPlayfield => "the playfield must have a positive width and height"@,
            ConfigError::ZeroTimestep => "the timestep must be positive"@,
            ConfigError::ZeroSpeedScale => "the speed scale must be positive"@,
            ConfigError::NegativeMargin => "the despawn margin must not be negative"@,
            ConfigError::ZeroFrameCount => "an explosion must have at least one frame"@,
            ConfigError::ZeroFramePeriod => "the frame period must be positive"@,
        }
    }

    /// Describes the error in words.
    pub fn message(&self) -> (m: &'static str)
        ensures
            m@ == self.text(),
    {
        match self {
            ConfigError::EmptyPlayfield => "the playfield must have a positive width and height",
            ConfigError::ZeroTimestep => "the timestep must be positive",
            ConfigError::ZeroSpeedScale => "the speed scale must be positive",
            ConfigError::NegativeMargin => "the despawn margin must not be negative",
            ConfigError::ZeroFrameCount => "an explosion must have at least one frame",
            ConfigError::ZeroFramePeriod => "the frame period must be positive",
        }
    }
}

impl View for Config {
    type V = Params;

    closed spec fn view(&self) -> Params {
        self.params
    }
}

impl Config {
    #[verifier::type_invariant]
    spec fn checked(self) -> bool {
        self.params.valid()
    }

    /// Accepts the constants if nothing is wrong with them, and names the
    /// first fault otherwise.
    pub fn new(params: Params) -> (r: Result<Config, ConfigError>)
        ensures
            match r {
                Ok(c) => params.fault() is None && c@ == params,
                Err(e) => params.fault() == Some(e),
            },
    {
        match params.check() {
            Some(e) => Err(e),
            None => Ok(Config { params }),
        }
    }

    /// The constants, all of which have passed the checks.
    pub fn params(&self) -> (p: Params)
        ensures
            p == self@,
            p.valid(),
    {
        proof {
            use_type_invariant(self);
        }
        self.params
    }
}

} // verus!
