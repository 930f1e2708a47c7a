//! The shared noise-level knob and the single-byte commands that tune it.

use vstd::prelude::*;

verus! {

/// Smallest noise level the knob can reach: decrementing never goes below it.
pub const MIN_NOISE_LEVEL: u16 = 1;

/// Largest noise level the knob can reach: incrementing clamps here.
pub const MAX_NOISE_LEVEL: u16 = 100;

/// Noise level the knob starts at.
pub const DEFAULT_NOISE_LEVEL: u16 = 20;

/// A level is valid when it lies within the knob's closed range.
pub open spec fn valid_level(l: int) -> bool {
    MIN_NOISE_LEVEL <= l <= MAX_NOISE_LEVEL
}

/// A command derived from one received byte.
#[derive(PartialEq, Eq, Structural, Clone, Copy, Debug)]
pub enum Command {
    IncreaseNoise,
    DecreaseNoise,
    Unrecognized(u8),
}

/// The command a given byte stands for: `p` raises the noise level,
/// `l` lowers it, anything else is ignored.
pub open spec fn spec_command(b: u8) -> Command {
    if b == 112 {
        Command::IncreaseNoise
    } else if b == 108 {
        Command::DecreaseNoise
    } else {
        Command::Unrecognized(b)
    }
}

/// Interpret one received byte as a command.
pub fn parse_command(b: u8) -> (c: Command)
    ensures
        c == spec_command(b),
{
    if b == 112 {
        Command::IncreaseNoise
    } else if b == 108 {
        Command::DecreaseNoise
    } else {
        Command::Unrecognized(b)
    }
}

/// The level that one command turns `l` into: increments clamp at the
/// maximum, decrements stop at the minimum, unrecognized bytes change nothing.
pub open spec fn level_step(l: int, c: Command) -> int {
    match c {
        Command::IncreaseNoise => if l >= MAX_NOISE_LEVEL { MAX_NOISE_LEVEL as int } else { l + 1 },
        Command::DecreaseNoise => if l <= MIN_NOISE_LEVEL { MIN_NOISE_LEVEL as int } else { l - 1 },
        Command::Unrecognized(_) => l,
    }
}

/// The level after a whole sequence of command bytes has been applied in order.
pub open spec fn level_after(l: int, bytes: Seq<u8>) -> int
    decreases bytes.len(),
{
    if bytes.len() == 0 {
        l
    } else {
        level_after(level_step(l, spec_command(bytes[0])), bytes.drop_first())
    }
}

/// The noise-amplitude knob: a percentage shared by the generators (readers)
/// and the host link (sole writer).
pub struct NoiseConfig {
    pub level: u16,
}

impl NoiseConfig {
    /// The knob is well formed when its level is in range.
    pub open spec fn wf(self) -> bool {
        valid_level(self.level as int)
    }

    /// A fresh knob at the default level.
    pub fn new() -> (c: NoiseConfig)
        ensures
            c.wf(),
            c.level == DEFAULT_NOISE_LEVEL,
    {
        NoiseConfig { level: DEFAULT_NOISE_LEVEL }
    }

    /// Read the current level.
    pub fn get(&self) -> (l: u16)
        ensures
            l == self.level,
    {
        self.level
    }

    /// Raise the level by one, clamped at the maximum.
    pub fn increase(&mut self)
        requires
            old(self).wf(),
        ensures
            final(self).wf(),
            final(self).level == level_step(old(self).level as int, Command::IncreaseNoise),
    {
        if self.level >= MAX_NOISE_LEVEL {
            self.level = MAX_NOISE_LEVEL;
        } else {
            self.level = self.level + 1;
        }
    }

    /// Lower the level by one, stopping at the minimum.
    pub fn decrease(&mut self)
        requires
            old(self).wf(),
        ensures
            final(self).wf(),
            final(self).level == level_step(old(self).level as int, Command::DecreaseNoise),
    {
        if self.level <= MIN_NOISE_LEVEL {
            self.level = MIN_NOISE_LEVEL;
        } else {
            self.level = self.level - 1;
        }
    }

    /// Apply one command to the knob.
    pub fn apply_command(&mut self, c: Command)
        requires
            old(self).wf(),
        ensures
            final(self).wf(),
            final(self).level == level_step(old(self).level as int, c),
    {
        match c {
            Command::IncreaseNoise => self.increase(),
            Command::DecreaseNoise => self.decrease(),
            Command::Unrecognized(_) => (),
        }
    }
}

/// One command keeps a valid level valid.
pub proof fn lemma_level_step_valid(l: int, c: Command)
    requires
        valid_level(l),
    ensures
        valid_level(level_step(l, c)),
{
}

/// However many command bytes arrive, in whatever interleaving, a valid
/// noise level stays within its closed range.
pub proof fn lemma_level_always_valid(l: int, bytes: Seq<u8>)
    requires
        valid_level(l),
    ensures
        valid_level(level_after(l, bytes)),
    decreases bytes.len(),
{
    if bytes.len() > 0 {
        lemma_level_step_valid(l, spec_command(bytes[0]));
        lemma_level_always_valid(level_step(l, spec_command(bytes[0])), bytes.drop_first());
    }
}

} // verus!
