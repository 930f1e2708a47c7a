//! Sample values flowing through the pipeline.
//!
//! Signal values are fixed-point integers in micro-units: `MICRO` stands
//! for one unit, so a sample of one half unit is `MICRO / 2`.

use vstd::prelude::*;

verus! {

/// One unit of signal value, in micro-units.
pub const MICRO: i64 = 1_000_000;

/// Largest magnitude, in micro-units, a signal value may take anywhere in
/// the pipeline. Generous headroom over the waveforms' actual range keeps
/// every intermediate product inside `i64`.
pub const VALUE_BOUND: i64 = 1_000_000_000_000;

/// A value is in range when its magnitude is at most `VALUE_BOUND`.
pub open spec fn value_in_range(v: int) -> bool {
    -VALUE_BOUND <= v <= VALUE_BOUND
}

/// A raw sample emitted by a generator, tagged with the waveform it
/// belongs to. Consumed exactly once by the filter stage.
#[derive(PartialEq, Eq, Structural, Clone, Copy, Debug)]
pub enum RawSample {
    Sine(i64),
    Square(i64),
}

impl RawSample {
    /// The carried value, whichever waveform produced it.
    pub open spec fn spec_value(self) -> int {
        match self {
            RawSample::Sine(v) => v as int,
            RawSample::Square(v) => v as int,
        }
    }

    /// A raw sample is in range when its value is.
    pub open spec fn wf(self) -> bool {
        value_in_range(self.spec_value())
    }
}

/// A raw value paired with its filtered counterpart, tagged like the raw
/// sample it came from. Consumed exactly once by the host link.
#[derive(PartialEq, Eq, Structural, Clone, Copy, Debug)]
pub enum PublishedSample {
    Sine(i64, i64),
    Square(i64, i64),
}

impl PublishedSample {
    /// A published pair is in range when both of its values are.
    pub open spec fn wf(self) -> bool {
        match self {
            PublishedSample::Sine(raw, filtered) => value_in_range(raw as int) && value_in_range(
                filtered as int,
            ),
            PublishedSample::Square(raw, filtered) => value_in_range(raw as int) && value_in_range(
                filtered as int,
            ),
        }
    }
}

} // verus!
