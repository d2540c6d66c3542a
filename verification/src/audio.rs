//! Waveform synthesis for the audio collaborator, in fixed point.

use vstd::prelude::*;

use crate::camera::{sin_spec, sin_fx};
use crate::fixed::{SCALE, div_fl, rem_fl};

verus! {

/// The shape of a synthesized wave.
#[derive(Clone, Copy, Debug, PartialEq, Eq, Structural)]
pub enum WaveType {
    Sine,
    Square,
    Saw,
}

/// The fixed-point value of a wave of the given shape at `hz * t` cycles:
/// a sine, an alternating square, or a rising sawtooth, each within one
/// unit of magnitude.
pub open spec fn wave_spec(ty: WaveType, hz: int, t: int) -> int {
    let cycles = (hz * t) / (SCALE as int);
    match ty {
        WaveType::Sine => sin_spec(cycles),
        WaveType::Square => {
            if (cycles / (SCALE as int)) % 2 == 0 {
                -SCALE as int
            } else {
                SCALE as int
            }
        },
        WaveType::Saw => (2 * cycles) % (2 * SCALE) - SCALE,
    }
}

impl WaveType {
    /// Evaluate the wave at time `t` (fixed-point seconds) for a frequency
    /// `hz` (fixed-point Hertz).
    pub fn get(&self, hz: i64, t: i64) -> (r: i64)
        requires
            0 <= hz <= 0x1000_0000,
            0 <= t <= 0x1000_0000,
        ensures
            r == wave_spec(*self, hz as int, t as int),
            -SCALE <= r <= SCALE,
    {
        proof {
            crate::fixed::lemma_mul_abs_bound(hz as int, t as int, 0x1000_0000, 0x1000_0000);
            crate::fixed::lemma_div_in_range((hz as int) * (t as int), SCALE as int);
            vstd::arithmetic::div_mod::lemma_div_pos_is_pos(
                (hz as int) * (t as int),
                SCALE as int,
            );
        }
        let cycles: i64 = div_fl((hz as i128) * (t as i128), SCALE as i128) as i64;
        match self {
            WaveType::Sine => {
                proof {
                    crate::camera::lemma_sin_bounds(cycles as int);
                }
                sin_fx(cycles)
            },
            WaveType::Square => {
                let k: i64 = cycles / SCALE;
                let par: i64 = rem_fl(k as i128, 2) as i64;
                if par == 0 {
                    -SCALE
                } else {
                    SCALE
                }
            },
            WaveType::Saw => {
                let s: i64 = rem_fl((2 * cycles) as i128, (2 * SCALE) as i128) as i64;
                s - SCALE
            },
        }
    }
}

/// One voice: a wave shape at a frequency, scaled by a volume.
#[derive(Clone, Copy, Debug, PartialEq, Eq, Structural)]
pub struct Wave {
    pub ty: WaveType,
    pub hz: i64,
    pub volume: i64,
}

/// Machine bound on a voice's volume: what keeps the scaled sample inside
/// the fixed-point range.
pub const VOLUME_BOUND: i64 = 0x1_0000_0000;

/// The fixed-point sample of a voice at time `t`: the shape's value scaled
/// by the volume.
pub open spec fn voice_spec(w: Wave, t: int) -> int {
    (wave_spec(w.ty, w.hz as int, t) * w.volume) / (SCALE as int)
}

impl Wave {
    /// Build a voice.
    pub fn new(ty: WaveType, hz: i64, volume: i64) -> (w: Wave)
        ensures
            w.ty == ty && w.hz == hz && w.volume == volume,
    {
        Wave { ty, hz, volume }
    }

    /// Sample the voice at time `t` (fixed-point seconds).
    pub fn get(&self, t: i64) -> (r: i64)
        requires
            0 <= self.hz <= 0x1000_0000,
            -VOLUME_BOUND <= self.volume <= VOLUME_BOUND,
            0 <= t <= 0x1000_0000,
        ensures
            r == voice_spec(*self, t as int),
            -VOLUME_BOUND <= r <= VOLUME_BOUND,
    {
        let v: i64 = self.ty.get(self.hz, t);
        proof {
            crate::fixed::lemma_mul_abs_bound(
                v as int,
                self.volume as int,
                SCALE as int,
                VOLUME_BOUND as int,
            );
            crate::fixed::lemma_div_in_range((v as int) * (self.volume as int), SCALE as int);
            lemma_voice_unit(v as int, self.volume as int);
        }
        div_fl((v as i128) * (self.volume as i128), SCALE as i128) as i64
    }
}

/// A wave value within one unit, scaled by a volume within the machine
/// bound, stays within the machine bound.
proof fn lemma_voice_unit(v: int, vol: int)
    requires
        -SCALE <= v <= SCALE,
        -VOLUME_BOUND <= vol <= VOLUME_BOUND,
    ensures
        -VOLUME_BOUND <= (v * vol) / (SCALE as int) <= VOLUME_BOUND,
{
    assert(-(SCALE as int) * (VOLUME_BOUND as int) <= v * vol <= (SCALE as int) * (
    VOLUME_BOUND as int)) by (nonlinear_arith)
        requires
            -SCALE <= v <= SCALE,
            -VOLUME_BOUND <= vol <= VOLUME_BOUND,
    ;
    vstd::arithmetic::div_mod::lemma_div_is_ordered(
        v * vol,
        (SCALE as int) * (VOLUME_BOUND as int),
        SCALE as int,
    );
    vstd::arithmetic::div_mod::lemma_div_is_ordered(
        -(SCALE as int) * (VOLUME_BOUND as int),
        v * vol,
        SCALE as int,
    );
}

} // verus!
