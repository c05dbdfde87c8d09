//! Colours: the 8-bit triple that travels on the wire, and the fixed-point
//! pixel that the buffer stores so that fades keep their fractions.

use vstd::prelude::*;

verus! {

/// Units of stored brightness per step of an 8-bit channel.
pub const UNITS: u32 = 1000;

/// The smallest amount by which a fade lowers the peak of a lit pixel.
pub const MIN_FADE_STEP: u32 = 1;

/// A colour as it arrives in a datagram and as a sink receives it.
#[derive(Clone, Copy, Debug, PartialEq, Eq, Structural)]
pub struct Rgb8 {
    pub r: u8,
    pub g: u8,
    pub b: u8,
}

/// A stored colour. Each channel counts thousandths of an 8-bit step, so
/// 255 000 is full scale; values above it are kept and saturate on output.
#[derive(Clone, Copy, Debug, PartialEq, Eq, Structural)]
pub struct Led {
    pub r: u32,
    pub g: u32,
    pub b: u32,
}

/// The larger of two integers.
pub open spec fn larger(a: int, b: int) -> int {
    if a >= b {
        a
    } else {
        b
    }
}

/// The channel value that an 8-bit level stands for.
pub open spec fn widen(level: u8) -> u32 {
    (level * UNITS) as u32
}

/// The 8-bit level that a channel is delivered as: whole steps, fractions
/// dropped, at most 255.
pub open spec fn narrow(channel: u32) -> u8 {
    if channel / UNITS >= 255 {
        255u8
    } else {
        (channel / UNITS) as u8
    }
}

/// How much one fade at rate `num / den` takes from each channel of a pixel
/// whose largest channel is `peak`.
pub open spec fn fade_step(peak: u32, num: u32, den: u64) -> int {
    larger((peak * num) / (den as int), MIN_FADE_STEP as int)
}

/// A channel lowered by `step`, stopping at zero.
pub open spec fn lowered(channel: u32, step: int) -> u32 {
    if channel > step {
        (channel - step) as u32
    } else {
        0
    }
}

impl Rgb8 {
    pub fn new(r: u8, g: u8, b: u8) -> (c: Rgb8)
        ensures
            c == (Rgb8 { r, g, b }),
    {
        Rgb8 { r, g, b }
    }
}

impl Led {
    /// The dark pixel.
    pub open spec fn black() -> Led {
        Led { r: 0, g: 0, b: 0 }
    }

    /// The stored form of a wire colour.
    pub open spec fn of(c: Rgb8) -> Led {
        Led { r: widen(c.r), g: widen(c.g), b: widen(c.b) }
    }

    /// The wire colour that this pixel is delivered as.
    pub open spec fn quantized(self) -> Rgb8 {
        Rgb8 { r: narrow(self.r), g: narrow(self.g), b: narrow(self.b) }
    }

    /// The largest of the three channels.
    pub open spec fn peak(self) -> u32 {
        if self.r >= self.g && self.r >= self.b {
            self.r
        } else if self.g >= self.b {
            self.g
        } else {
            self.b
        }
    }

    /// Whether some channel is at or above `floor`.
    pub open spec fn reaches(self, floor: u32) -> bool {
        self.peak() >= floor
    }

    /// This pixel after one fade at rate `num / den`: every channel loses the
    /// same step, a share of the peak but never less than the minimum step,
    /// and stops at zero. A rate of zero fades nothing.
    pub open spec fn faded(self, num: u32, den: u64) -> Led {
        if num == 0 {
            self
        } else {
            let step = fade_step(self.peak(), num, den);
            Led {
                r: lowered(self.r, step),
                g: lowered(self.g, step),
                b: lowered(self.b, step),
            }
        }
    }

    /// Stores a wire colour.
    pub fn from_rgb8(c: Rgb8) -> (p: Led)
        ensures
            p == Led::of(c),
    {
        Led { r: c.r as u32 * UNITS, g: c.g as u32 * UNITS, b: c.b as u32 * UNITS }
    }

    /// The wire colour to deliver for this pixel.
    pub fn to_rgb8(&self) -> (c: Rgb8)
        ensures
            c == self.quantized(),
    {
        Rgb8 { r: narrow_channel(self.r), g: narrow_channel(self.g), b: narrow_channel(self.b) }
    }

    /// The largest of the three channels.
    pub fn peak_channel(&self) -> (m: u32)
        ensures
            m == self.peak(),
    {
        if self.r >= self.g && self.r >= self.b {
            self.r
        } else if self.g >= self.b {
            self.g
        } else {
            self.b
        }
    }
}

fn narrow_channel(channel: u32) -> (level: u8)
    ensures
        level == narrow(channel),
{
    let steps: u32 = channel / UNITS;
    if steps >= 255 {
        255
    } else {
        steps as u8
    }
}

fn lower_channel(channel: u32, step: u64) -> (out: u32)
    ensures
        out == lowered(channel, step as int),
{
    if channel as u64 > step {
        (channel as u64 - step) as u32
    } else {
        0
    }
}

/// Fades one pixel in place at rate `num / den` and says whether it changed.
pub fn fade_led(led: &mut Led, num: u32, den: u64) -> (changed: bool)
    requires
        den > 0,
    ensures
        *final(led) == old(led).faded(num, den),
        changed == (*final(led) != *old(led)),
        changed == (num > 0 && old(led).peak() > 0),
{
    if num == 0 {
        return false;
    }
    let peak: u32 = led.peak_channel();
    assert(peak * num <= 0xffff_ffff * 0xffff_ffff) by (nonlinear_arith)
        requires
            peak <= 0xffff_ffff,
            num <= 0xffff_ffff,
    ;
    let share: u64 = (peak as u64 * num as u64) / den;
    let step: u64 = if share >= MIN_FADE_STEP as u64 {
        share
    } else {
        MIN_FADE_STEP as u64
    };
    assert(step as int == fade_step(peak, num, den));
    let updated = Led {
        r: lower_channel(led.r, step),
        g: lower_channel(led.g, step),
        b: lower_channel(led.b, step),
    };
    let changed = updated != *led;
    *led = updated;
    changed
}

/// A wire colour survives being stored and delivered again.
pub proof fn lemma_store_then_deliver(c: Rgb8)
    ensures
        Led::of(c).quantized() == c,
{
}

/// A fade at a positive rate lowers the peak of a lit pixel by at least the
/// minimum step, raises no channel, and leaves a dark pixel dark.
pub proof fn lemma_fade_lowers_peak(p: Led, num: u32, den: u64)
    requires
        num > 0,
        den > 0,
    ensures
        p.faded(num, den).r <= p.r,
        p.faded(num, den).g <= p.g,
        p.faded(num, den).b <= p.b,
        p.faded(num, den).peak() == lowered(p.peak(), fade_step(p.peak(), num, den)),
        p.peak() > 0 ==> p.faded(num, den).peak() + MIN_FADE_STEP <= p.peak(),
        p.peak() == 0 ==> p.faded(num, den) == p,
{
}

} // verus!
