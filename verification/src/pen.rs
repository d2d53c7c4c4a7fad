//! Pen samples, pressure curves and half-widths.

use vstd::prelude::*;
use crate::geometry::Point;
use crate::geometry::MAX_THICKNESS;

verus! {

/// The fixed-point representation of full pressure, of a width multiplier of
/// one, and of unit speed.
pub const PRESSURE_ONE: u32 = 65536;

/// One recorded pointer sample.
#[derive(Clone, Copy, Debug, PartialEq, Eq, Structural)]
pub struct PenEvent {
    pub pos: Point,
    /// Normalised pressure, `0 ..= PRESSURE_ONE` once recorded by a sampler.
    pub pressure: u32,
    /// Pointer speed; kept with the sample, not read by the geometry.
    pub speed: u32,
}

/// A raw pressure reading brought into `0 ..= PRESSURE_ONE`.
pub open spec fn clamp_pressure_spec(raw: i64) -> u32 {
    if raw < 0 {
        0
    } else if raw > PRESSURE_ONE {
        PRESSURE_ONE
    } else {
        raw as u32
    }
}

/// Clamps a raw pressure reading: readings below zero count as no pressure,
/// readings above full pressure as full pressure.
pub fn clamp_pressure(raw: i64) -> (p: u32)
    ensures
        p == clamp_pressure_spec(raw),
        p <= PRESSURE_ONE,
{
    if raw < 0 {
        0
    } else if raw > 65536 {
        PRESSURE_ONE
    } else {
        raw as u32
    }
}

/// A mapping from normalised pressure to a width multiplier, both in units of
/// `1 / PRESSURE_ONE`.
///
/// `multiplier` is the curve as contracts read it, `width_multiplier` the
/// curve as it runs. An implementation compiled without the verifier writes
/// both, with the same body.
pub trait PressureCurve {
    /// The multiplier this curve assigns to a pressure.
    spec fn multiplier(&self, pressure: u32) -> u32;

    fn width_multiplier(&self, pressure: u32) -> (m: u32)
        ensures
            m == self.multiplier(pressure),
    ;
}

/// The identity curve: the multiplier is the pressure itself.
#[derive(Clone, Copy, Debug)]
pub struct FlatCurve;

impl PressureCurve for FlatCurve {
    open spec fn multiplier(&self, pressure: u32) -> u32 {
        pressure
    }

    fn width_multiplier(&self, pressure: u32) -> (m: u32) {
        flat_pressure_curve(pressure)
    }
}

/// The identity pressure mapping.
pub fn flat_pressure_curve(pressure: u32) -> (m: u32)
    ensures
        m == pressure,
{
    pressure
}

/// Half of the base width `width`, scaled by the multiplier `m`, rounded down.
pub open spec fn half_width_spec(width: u32, m: u32) -> nat {
    ((width * m) / (2 * PRESSURE_ONE)) as nat
}

/// The half-width of a stroke of base width `width` under the multiplier `m`.
pub fn half_width(width: u32, m: u32) -> (hw: u64)
    ensures
        hw == half_width_spec(width, m),
        hw <= MAX_THICKNESS,
{
    assert(0 <= width * m <= 4294967295 * 4294967295) by (nonlinear_arith)
        requires
            0 <= width <= 4294967295,
            0 <= m <= 4294967295,
    ;
    let prod: u64 = (width as u64) * (m as u64);
    prod / 131072
}

} // verus!
