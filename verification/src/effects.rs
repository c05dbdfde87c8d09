//! Effects on the stored colours: the fade to black, and the synthetic
//! audio visualisation that feeds on the strip's own red channel.

use vstd::prelude::*;
use crate::color::{fade_led, Led};

verus! {

/// The idle fade takes this share of a pixel's peak with every tick.
pub const IDLE_FADE_NUM: u32 = 1;

/// The idle fade's share is one in this many.
pub const IDLE_FADE_DEN: u64 = 10;

/// The idle fade works on every pixel with a channel at or above this floor,
/// the smallest brightness there is.
pub const IDLE_FLOOR: u32 = 1;

/// The alert fade takes this share of a pixel's peak with every tick, more
/// than the idle fade.
pub const ALERT_FADE_NUM: u32 = 1;

/// The alert fade's share is one in this many.
pub const ALERT_FADE_DEN: u64 = 5;

/// The alert fade works on every pixel with a channel at or above ten steps.
pub const ALERT_FLOOR: u32 = 10_000;

/// A ratio of one, in thousandths.
pub const WHOLE: i32 = 1000;

/// The audio visualisation's gain never falls below one.
pub const AVFACT_MIN: u32 = 1000;

/// The audio visualisation's gain never rises above three.
pub const AVFACT_MAX: u32 = 3000;

/// By how much the gain rises with every update, in thousandths.
pub const AVFACT_STEP: u32 = 1;

/// The full scale of a channel.
pub const FULL_SCALE: u32 = 255_000;

/// The colours after one fade tick: every pixel with a channel at or above
/// `floor` is faded at rate `num / den`, the others stay.
pub open spec fn faded_all(leds: Seq<Led>, floor: u32, num: u32, den: u64) -> Seq<Led> {
    Seq::new(
        leds.len(),
        |j: int|
            if leds[j].reaches(floor) {
                leds[j].faded(num, den)
            } else {
                leds[j]
            },
    )
}

/// The colours after one tick of the idle fade.
pub open spec fn idle_faded(leds: Seq<Led>) -> Seq<Led> {
    faded_all(leds, IDLE_FLOOR, IDLE_FADE_NUM, IDLE_FADE_DEN)
}

/// The colours after `ticks` ticks of the idle fade.
pub open spec fn idle_faded_after(leds: Seq<Led>, ticks: nat) -> Seq<Led>
    decreases ticks,
{
    if ticks == 0 {
        leds
    } else {
        idle_faded_after(idle_faded(leds), (ticks - 1) as nat)
    }
}

/// Whether every pixel is dark.
pub open spec fn all_dark(leds: Seq<Led>) -> bool {
    forall|j: int| 0 <= j < leds.len() ==> leds[j] == Led::black()
}

/// Whether no channel of any pixel is above `bound`.
pub open spec fn none_above(leds: Seq<Led>, bound: int) -> bool {
    forall|j: int| 0 <= j < leds.len() ==> (#[trigger] leds[j]).peak() <= bound
}

/// One fade tick: fades every pixel with a channel at or above `floor` at
/// rate `num / den`, and says whether any colour changed.
pub fn fade(leds: &mut Vec<Led>, floor: u32, num: u32, den: u64) -> (changed: bool)
    requires
        den > 0,
    ensures
        final(leds)@ == faded_all(old(leds)@, floor, num, den),
        changed == (final(leds)@ != old(leds)@),
{
    let ghost before = leds@;
    let mut changed = false;
    let mut i: usize = 0;
    while i < leds.len()
        invariant
            den > 0,
            i <= leds@.len(),
            leds@.len() == before.len(),
            forall|j: int| 0 <= j < i ==> leds@[j] == faded_all(before, floor, num, den)[j],
            forall|j: int| i <= j < before.len() ==> leds@[j] == before[j],
            changed == exists|j: int| 0 <= j < i && #[trigger] leds@[j] != before[j],
        decreases leds@.len() - i,
    {
        let ghost sooner = leds@;
        let led = leds[i];
        if led.peak_channel() >= floor {
            let mut next = led;
            let moved = fade_led(&mut next, num, den);
            leds[i] = next;
            if moved {
                changed = true;
            }
        }
        proof {
            if changed {
                if leds@[i as int] != before[i as int] {
                } else {
                    let w = choose|w: int| 0 <= w < i && #[trigger] sooner[w] != before[w];
                    assert(leds@[w] != before[w]);
                }
            } else {
                assert forall|j: int| 0 <= j < i + 1 implies !(#[trigger] leds@[j] != before[j]) by {
                    if j < i {
                        assert(sooner[j] == leds@[j]);
                    }
                }
            }
        }
        i = i + 1;
    }
    proof {
        assert(leds@ =~= faded_all(before, floor, num, den));
        if changed {
            let w = choose|w: int| 0 <= w < i && #[trigger] leds@[w] != before[w];
        } else {
            assert(leds@ =~= before);
        }
    }
    changed
}

/// A number of ticks after which the idle fade has brought every channel
/// that was at most `bound` to zero: ten ticks for every halving of the
/// bound down to forty units, then one tick for each unit that is left.
pub open spec fn fade_ticks(bound: nat) -> nat
    decreases bound,
{
    if bound < 40 {
        bound
    } else {
        10 + fade_ticks(bound / 2)
    }
}

/// The bound on the channels after one tick of the idle fade, given the
/// bound before it.
pub open spec fn shrunk(bound: int) -> int {
    (9 * bound + 9) / 10
}

/// A tick of the idle fade changes the colours exactly if some pixel is
/// lit. It takes a tenth off a bound on the channels, fractions aside, and
/// at least the minimum step off a bound that was positive.
pub proof fn lemma_idle_tick(leds: Seq<Led>, bound: int)
    requires
        none_above(leds, bound),
    ensures
        idle_faded(leds).len() == leds.len(),
        idle_faded(leds) == leds <==> all_dark(leds),
        bound > 0 ==> none_above(idle_faded(leds), bound - 1),
        none_above(idle_faded(leds), shrunk(bound)),
        bound <= 0 ==> all_dark(leds),
{
    let next = idle_faded(leds);
    if all_dark(leds) {
        assert(next =~= leds);
    }
    if next == leds {
        assert forall|j: int| 0 <= j < leds.len() implies leds[j] == Led::black() by {
            assert(next[j] == leds[j]);
            crate::color::lemma_fade_lowers_peak(leds[j], IDLE_FADE_NUM, IDLE_FADE_DEN);
        }
    }
    if bound > 0 {
        assert forall|j: int| 0 <= j < next.len() implies (#[trigger] next[j]).peak() <= bound
            - 1 && next[j].peak() <= shrunk(bound) by {
            assert(leds[j].peak() <= bound);
            crate::color::lemma_fade_lowers_peak(leds[j], IDLE_FADE_NUM, IDLE_FADE_DEN);
        }
    } else {
        assert forall|j: int| 0 <= j < leds.len() implies leds[j] == Led::black() by {
            assert(leds[j].peak() <= bound);
        }
        assert forall|j: int| 0 <= j < next.len() implies (#[trigger] next[j]).peak() <= shrunk(
            bound,
        ) by {
            assert(leds[j].peak() <= bound);
        }
    }
}

proof fn lemma_idle_ticks_join(leds: Seq<Led>, a: nat, b: nat)
    ensures
        idle_faded_after(leds, a + b) == idle_faded_after(idle_faded_after(leds, a), b),
    decreases a,
{
    if a > 0 {
        lemma_idle_ticks_join(idle_faded(leds), (a - 1) as nat, b);
    }
}

/// The bound on the channels after `ticks` ticks of the idle fade, given
/// the bound before them.
pub open spec fn shrunk_after(bound: int, ticks: nat) -> int
    decreases ticks,
{
    if ticks == 0 {
        bound
    } else {
        shrunk_after(shrunk(bound), (ticks - 1) as nat)
    }
}

proof fn lemma_idle_ticks_shrink(leds: Seq<Led>, bound: int, ticks: nat)
    requires
        none_above(leds, bound),
    ensures
        none_above(idle_faded_after(leds, ticks), shrunk_after(bound, ticks)),
    decreases ticks,
{
    if ticks > 0 {
        lemma_idle_tick(leds, bound);
        lemma_idle_ticks_shrink(idle_faded(leds), shrunk(bound), (ticks - 1) as nat);
    }
}

/// Ten ticks of the idle fade halve a bound of forty units or more.
proof fn lemma_ten_ticks_halve(leds: Seq<Led>, bound: int)
    requires
        none_above(leds, bound),
        bound >= 40,
    ensures
        none_above(idle_faded_after(leds, 10), bound / 2),
{
    lemma_idle_ticks_shrink(leds, bound, 10);
    assert(shrunk_after(bound, 10) <= bound / 2) by {
        reveal_with_fuel(shrunk_after, 11);
    }
    let later = idle_faded_after(leds, 10);
    assert forall|j: int| 0 <= j < later.len() implies (#[trigger] later[j]).peak() <= bound / 2 by {
        assert(later[j].peak() <= shrunk_after(bound, 10));
    }
}

/// The idle fade leaves a dark strip dark.
pub proof fn lemma_idle_fade_stays_dark(leds: Seq<Led>, ticks: nat)
    requires
        all_dark(leds),
    ensures
        idle_faded_after(leds, ticks) == leds,
    decreases ticks,
{
    if ticks > 0 {
        assert(none_above(leds, 0));
        lemma_idle_tick(leds, 0);
        lemma_idle_fade_stays_dark(leds, (ticks - 1) as nat);
    }
}

/// The idle fade ends. From any colours, with `bound` the brightest
/// channel or more, `fade_ticks(bound)` ticks leave every pixel dark, and
/// so do more ticks.
pub proof fn lemma_idle_fade_reaches_dark(leds: Seq<Led>, bound: nat, ticks: nat)
    requires
        none_above(leds, bound as int),
        ticks >= fade_ticks(bound),
    ensures
        idle_faded_after(leds, ticks).len() == leds.len(),
        all_dark(idle_faded_after(leds, ticks)),
    decreases bound, ticks,
{
    lemma_idle_tick(leds, bound as int);
    if bound == 0 {
        lemma_idle_fade_stays_dark(leds, ticks);
    } else if bound < 40 {
        lemma_idle_fade_reaches_dark(idle_faded(leds), (bound - 1) as nat, (ticks - 1) as nat);
    } else {
        lemma_ten_ticks_halve(leds, bound as int);
        lemma_idle_ticks_join(leds, 10, (ticks - 10) as nat);
        let later = idle_faded_after(leds, 10);
        assert(later.len() == leds.len()) by {
            lemma_idle_faded_len(leds, 10);
        }
        lemma_idle_fade_reaches_dark(later, bound / 2, (ticks - 10) as nat);
    }
}

proof fn lemma_idle_faded_len(leds: Seq<Led>, ticks: nat)
    ensures
        idle_faded_after(leds, ticks).len() == leds.len(),
    decreases ticks,
{
    if ticks > 0 {
        lemma_idle_faded_len(idle_faded(leds), (ticks - 1) as nat);
    }
}

/// A strip within full scale is dark 161 ticks into the idle fade.
pub proof fn lemma_full_scale_fades_in_time(leds: Seq<Led>)
    requires
        none_above(leds, FULL_SCALE as int),
    ensures
        all_dark(idle_faded_after(leds, 161)),
{
    assert(fade_ticks(FULL_SCALE as nat) == 161) by {
        reveal_with_fuel(fade_ticks, 15);
    }
    lemma_idle_fade_reaches_dark(leds, FULL_SCALE as nat, 161);
}

/// The position in a strip of `length` positions that a ratio, given in
/// thousandths, points at. Ratios at or below zero point at the start,
/// ratios at or above one at the end; between them fractions are dropped.
pub open spec fn ratio_index(ratio: int, length: int) -> int {
    if ratio <= 0 {
        0
    } else if ratio >= WHOLE {
        length
    } else {
        ratio * length / 1000
    }
}

fn bound(ratio: i32, length: usize) -> (index: usize)
    ensures
        index == ratio_index(ratio as int, length as int),
        index <= length,
{
    if ratio <= 0 {
        0
    } else if ratio >= WHOLE {
        length
    } else {
        assert(0 <= ratio * length <= 1000 * length) by (nonlinear_arith)
            requires
                0 < ratio < 1000,
                0 <= length,
        ;
        let product: u128 = ratio as u128 * length as u128;
        let index: u128 = product / 1000;
        index as usize
    }
}

/// The stretch of a strip of `length` positions between two ratios, given
/// in thousandths: its first position and the one after its last.
pub fn ratio_range(start: i32, end: i32, length: usize) -> (r: (usize, usize))
    ensures
        r.0 == ratio_index(start as int, length as int),
        r.1 == ratio_index(end as int, length as int),
        r.0 <= length,
        r.1 <= length,
{
    (bound(start, length), bound(end, length))
}

/// The total of the red channel over the positions `lo <= i < hi`.
pub open spec fn red_total(leds: Seq<Led>, lo: int, hi: int) -> int
    decreases hi - lo,
{
    if hi <= lo {
        0
    } else {
        red_total(leds, lo, hi - 1) + leds[hi - 1].r
    }
}

/// The mean of the red channel between two ratios of the strip, fractions
/// dropped; zero where the stretch is empty.
pub open spec fn band(leds: Seq<Led>, from: int, to: int) -> int {
    let lo = ratio_index(from, leds.len() as int);
    let hi = ratio_index(to, leds.len() as int);
    if lo < hi {
        red_total(leds, lo, hi) / (hi - lo)
    } else {
        0
    }
}

/// A band's mean under its own weight and the shared gain, both in
/// thousandths, as a channel: what does not fit the channel is cut off.
pub open spec fn level(mean: int, weight: int, gain: int) -> u32 {
    let v = mean * weight * gain / 1_000_000;
    if v > u32::MAX {
        u32::MAX
    } else {
        v as u32
    }
}

/// The synthetic sample of a strip under `gain`: the low band weighs 1.2,
/// the middle band 0.9 and the high band 1.
pub open spec fn sample(leds: Seq<Led>, gain: u32) -> Led {
    Led {
        r: level(band(leds, 0, 150), 1200, gain as int),
        g: level(band(leds, 250, 500), 900, gain as int),
        b: level(band(leds, 500, 1000), 1000, gain as int),
    }
}

/// The gain after a sample whose largest channel is `peak`: one step up,
/// but no higher than what would have brought the peak to full scale, and
/// in any case between the least and the greatest gain.
pub open spec fn next_gain(gain: u32, peak: u32) -> u32 {
    let raised = gain + AVFACT_STEP;
    let limited = if peak > 0 && (FULL_SCALE * 1000) / (peak as int) < raised {
        (FULL_SCALE * 1000) / (peak as int)
    } else {
        raised
    };
    if limited < AVFACT_MIN {
        AVFACT_MIN
    } else if limited > AVFACT_MAX {
        AVFACT_MAX
    } else {
        limited as u32
    }
}

/// The visualisation `avleds` with the sample of `rawleds` written to the
/// middle position, where there is one.
pub open spec fn with_sample(rawleds: Seq<Led>, avleds: Seq<Led>, gain: u32) -> Seq<Led> {
    if rawleds.len() / 2 < avleds.len() {
        avleds.update(rawleds.len() as int / 2, sample(rawleds, gain))
    } else {
        avleds
    }
}

fn chval(leds: &[Led], from: i32, to: i32) -> (mean: u32)
    ensures
        mean == band(leds@, from as int, to as int),
{
    let (lo, hi) = ratio_range(from, to, leds.len());
    if lo >= hi {
        return 0;
    }
    let mut total: u128 = 0;
    let mut i: usize = lo;
    while i < hi
        invariant
            lo <= i <= hi <= leds.len(),
            total == red_total(leds@, lo as int, i as int),
            total <= 0xffff_ffff * (i - lo),
        decreases hi - i,
    {
        total = total + leds[i].r as u128;
        i = i + 1;
    }
    let n: u128 = (hi - lo) as u128;
    assert(total / n <= 0xffff_ffff) by (nonlinear_arith)
        requires
            n > 0,
            total <= 0xffff_ffff * n,
    ;
    (total / n) as u32
}

fn weighted(mean: u32, weight: u32, gain: u32) -> (out: u32)
    requires
        weight <= 1200,
    ensures
        out == level(mean as int, weight as int, gain as int),
{
    assert(mean * weight <= 0xffff_ffff * 1200) by (nonlinear_arith)
        requires
            mean <= 0xffff_ffff,
            weight <= 1200,
    ;
    let by_weight: u128 = mean as u128 * weight as u128;
    assert(by_weight * gain <= 0xffff_ffff * 1200 * 0xffff_ffff) by (nonlinear_arith)
        requires
            by_weight <= 0xffff_ffff * 1200,
            gain <= 0xffff_ffff,
    ;
    let v: u128 = by_weight * gain as u128 / 1_000_000;
    if v > u32::MAX as u128 {
        u32::MAX
    } else {
        v as u32
    }
}

/// Derives the synthetic sample from `rawleds` under the gain `avfact`,
/// writes it to the middle position of `avleds`, and moves the gain on.
pub fn audvis_process(rawleds: &[Led], avleds: &mut Vec<Led>, avfact: &mut u32)
    ensures
        *final(avfact) == next_gain(*old(avfact), sample(rawleds@, *old(avfact)).peak()),
        final(avleds)@ == with_sample(rawleds@, old(avleds)@, *old(avfact)),
{
    let gain: u32 = *avfact;
    let ctr = Led {
        r: weighted(chval(rawleds, 0, 150), 1200, gain),
        g: weighted(chval(rawleds, 250, 500), 900, gain),
        b: weighted(chval(rawleds, 500, 1000), 1000, gain),
    };
    let peak: u32 = ctr.peak_channel();
    let raised: u64 = gain as u64 + AVFACT_STEP as u64;
    let limited: u64 = if peak > 0 && (FULL_SCALE as u64 * 1000) / (peak as u64) < raised {
        (FULL_SCALE as u64 * 1000) / (peak as u64)
    } else {
        raised
    };
    *avfact = if limited < AVFACT_MIN as u64 {
        AVFACT_MIN
    } else if limited > AVFACT_MAX as u64 {
        AVFACT_MAX
    } else {
        limited as u32
    };
    let center: usize = rawleds.len() / 2;
    if center < avleds.len() {
        avleds[center] = ctr;
    }
}

/// The colours after one step of the scroll: each half moves one position
/// away from the middle and fades by the share `1 / len` on the way, the
/// right half mirroring the left; the middle of a strip of odd length
/// stays.
pub open spec fn scrolled(leds: Seq<Led>) -> Seq<Led> {
    let l = leds.len() as int;
    Seq::new(
        leds.len(),
        |j: int|
            if j < l / 2 {
                leds[j + 1].faded(1, l as u64)
            } else if j >= l - l / 2 {
                leds[l - j].faded(1, l as u64)
            } else {
                leds[j]
            },
    )
}

/// Moves the visualisation one step outwards.
pub fn audvis_tick(avleds: &mut Vec<Led>)
    ensures
        final(avleds)@ == scrolled(old(avleds)@),
{
    let ghost before = avleds@;
    let l: usize = avleds.len();
    let mut idx: usize = 0;
    while idx < l / 2
        invariant
            idx <= l / 2,
            l == before.len(),
            avleds@.len() == l,
            forall|j: int| 0 <= j < idx ==> avleds@[j] == scrolled(before)[j],
            forall|j: int| l - idx <= j < l ==> avleds@[j] == scrolled(before)[j],
            forall|j: int| idx <= j < l - idx ==> avleds@[j] == before[j],
        decreases l / 2 - idx,
    {
        let mut led = avleds[idx + 1];
        fade_led(&mut led, 1, l as u64);
        avleds[idx] = led;
        avleds[l - idx - 1] = led;
        idx = idx + 1;
    }
    assert(avleds@ =~= scrolled(before));
}

} // verus!
