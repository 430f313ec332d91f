//! The fixed-point angle encoding of the sensor.
//!
//! The sensor transmits angles as signed 32-bit integers counting units of
//! 1/2²² of the base angular unit.  The reference decoders divided such a
//! raw value, once as truncating integer division and once in floating
//! point; this crate keeps one consistent policy instead: [`decode_angle`]
//! splits the raw value exactly into a whole part and a proper fraction of
//! 2²² subunits, so no precision is lost and no floating point is needed.
//! A caller that wants a real number divides `fraction` by
//! [`ANGLE_SCALE`] itself.

use vstd::prelude::*;

verus! {

/// Number of fixed-point subunits in one whole angle unit: 2²².
pub const ANGLE_SCALE: u32 = 4_194_304;

/// An angle as an exact fixed-point value: `whole + fraction / 2²²` angle
/// units, with `0 <= fraction < 2²²` (the whole part is the floor of the
/// angle, also for negative angles).
#[derive(Clone, Copy, Debug, PartialEq, Eq, Structural)]
pub struct Angle {
    pub whole: i32,
    pub fraction: u32,
}

impl Angle {
    /// The exact angle, measured in 2⁻²² subunits.
    pub open spec fn subunits(self) -> int {
        self.whole * (ANGLE_SCALE as int) + self.fraction
    }

    /// The fraction is a proper fraction.
    pub open spec fn wf(self) -> bool {
        self.fraction < ANGLE_SCALE
    }
}

/// Splits a raw fixed-point value into the exact angle it encodes.
pub fn decode_angle(raw: i32) -> (a: Angle)
    ensures
        a.wf(),
        a.subunits() == raw,
{
    if raw >= 0 {
        let q = (raw as u32) / ANGLE_SCALE;
        let r = (raw as u32) % ANGLE_SCALE;
        Angle { whole: q as i32, fraction: r }
    } else {
        let neg: u64 = (-(raw as i64)) as u64;
        let q = neg / (ANGLE_SCALE as u64);
        let r = neg % (ANGLE_SCALE as u64);
        if r == 0 {
            Angle { whole: (-(q as i64)) as i32, fraction: 0 }
        } else {
            Angle { whole: (-(q as i64) - 1) as i32, fraction: (ANGLE_SCALE as u64 - r) as u32 }
        }
    }
}

/// Packs an exact angle back into the raw fixed-point value that encodes
/// it; together with the contract of [`decode_angle`] this shows that the
/// two directions round-trip.
pub fn encode_angle(a: Angle) -> (raw: i32)
    requires
        a.wf(),
        i32::MIN <= a.subunits() <= i32::MAX,
    ensures
        raw == a.subunits(),
{
    let v: i64 = (a.whole as i64) * (ANGLE_SCALE as i64) + (a.fraction as i64);
    v as i32
}

/// The decoder is linear in the raw value: the zero raw value decodes to
/// the zero angle, and doubling the raw value doubles the decoded angle.
/// `single` and `double` are the decoded forms of `k` and `2 * k`, as the
/// contract of [`decode_angle`] pins them down.
pub proof fn lemma_decode_angle_linear(k: int, single: Angle, double: Angle)
    requires
        single.wf(),
        single.subunits() == k,
        double.wf(),
        double.subunits() == 2 * k,
    ensures
        double.subunits() == 2 * single.subunits(),
        k == 0 ==> single.whole == 0 && single.fraction == 0,
{
    if k == 0 {
        if single.whole >= 1 {
            assert(single.whole * (ANGLE_SCALE as int) >= ANGLE_SCALE as int) by (nonlinear_arith)
                requires
                    single.whole >= 1,
            ;
        }
        if single.whole <= -1 {
            assert(single.whole * (ANGLE_SCALE as int) <= -(ANGLE_SCALE as int))
                by (nonlinear_arith)
                requires
                    single.whole <= -1,
            ;
        }
    }
}

} // verus!
