//! The strip: the stored colour of every position, the sink that they are
//! flushed to, and the updates that the two colour-carrying datagrams make.

use vstd::prelude::*;
use crate::color::{Led, Rgb8};
use crate::protocol::{sparse_records, triples, SparseRecord};
use crate::strip_transport::StripTransport;

verus! {

/// The rainbow's speed right after it is switched on, in degrees of hue
/// across the strip.
pub const RAINBOW_DEFAULT: u32 = 270;

/// The degrees of hue that one unit of rainbow speed stands for.
pub const RAINBOW_UNIT: u32 = 30;

/// The strip and where it is shown.
#[derive(Debug)]
pub struct Strip {
    /// The sink that frames are flushed to.
    pub stream: StripTransport,
    /// The stored colour of every position.
    pub leds: Vec<Led>,
    /// Whether the colours have changed since the last flush.
    pub pending: bool,
    /// The rainbow's speed in degrees of hue across the strip; zero is off.
    pub rainbow: u32,
}

/// What a flush delivers.
#[derive(Debug, PartialEq, Eq)]
pub enum Frame {
    /// The stored colours as the sink takes them.
    Plain(Vec<Rgb8>),
    /// The stored colours, each with the hue shift, in thousandths of a
    /// degree, that it is to be given before it reaches the sink.
    Rainbow { leds: Vec<Led>, shifts: Vec<u64> },
}

/// The colour at position `j` after `records` were applied in order: that of
/// the last record addressed to `j`, or what stood there before.
pub open spec fn sparse_led(prior: Led, records: Seq<SparseRecord>, j: int) -> Led
    decreases records.len(),
{
    if records.len() == 0 {
        prior
    } else if records.last().index == j {
        Led::of(records.last().color)
    } else {
        sparse_led(prior, records.drop_last(), j)
    }
}

/// The colours after `records` were applied.
pub open spec fn sparse_applied(leds: Seq<Led>, records: Seq<SparseRecord>) -> Seq<Led> {
    Seq::new(leds.len(), |j: int| sparse_led(leds[j], records, j))
}

/// Whether some record is addressed to a position of a strip of `len`
/// positions.
pub open spec fn touches(records: Seq<SparseRecord>, len: int) -> bool {
    exists|k: int| 0 <= k < records.len() && (#[trigger] records[k]).index < len
}

/// The colours after `pixels` were laid over the start of the strip.
pub open spec fn sequential_applied(leds: Seq<Led>, pixels: Seq<Rgb8>) -> Seq<Led> {
    Seq::new(
        leds.len(),
        |j: int|
            if j < pixels.len() {
                Led::of(pixels[j])
            } else {
                leds[j]
            },
    )
}

/// The stored colours as a sink takes them.
pub open spec fn quantized(leds: Seq<Led>) -> Seq<Rgb8> {
    Seq::new(leds.len(), |j: int| leds[j].quantized())
}

/// The hue shift of position `i` of `n` at rainbow speed `speed`, in
/// thousandths of a degree: the share `i / n` of the speed.
pub open spec fn hue_shift(speed: u32, i: int, n: int) -> int {
    speed * 1000 * i / n
}

/// The hue shifts of a strip of `n` positions.
pub open spec fn hue_shifts(speed: u32, n: int) -> Seq<u64> {
    Seq::new(n as nat, |i: int| hue_shift(speed, i, n) as u64)
}

/// A frame with its lists as sequences.
pub enum FrameView {
    Plain(Seq<Rgb8>),
    Rainbow { leds: Seq<Led>, shifts: Seq<u64> },
}

impl View for Frame {
    type V = FrameView;

    open spec fn view(&self) -> FrameView {
        match *self {
            Frame::Plain(colors) => FrameView::Plain(colors@),
            Frame::Rainbow { leds, shifts } => FrameView::Rainbow { leds: leds@, shifts: shifts@ },
        }
    }
}

/// What a flush of `leds` delivers at rainbow speed `speed`.
pub open spec fn frame_of(leds: Seq<Led>, speed: u32) -> FrameView {
    if speed == 0 {
        FrameView::Plain(quantized(leds))
    } else {
        FrameView::Rainbow { leds, shifts: hue_shifts(speed, leds.len() as int) }
    }
}

impl Strip {
    /// A dark strip of `leds` positions in front of `stream`, with nothing
    /// to flush and the rainbow off.
    pub fn new(stream: StripTransport, leds: usize) -> (strip: Strip)
        ensures
            strip.stream == stream,
            strip.leds@.len() == leds,
            forall|j: int| 0 <= j < leds ==> strip.leds@[j] == Led::black(),
            !strip.pending,
            strip.rainbow == 0,
    {
        let mut dark: Vec<Led> = Vec::new();
        let mut i: usize = 0;
        while i < leds
            invariant
                i <= leds,
                dark@.len() == i,
                forall|j: int| 0 <= j < i ==> dark@[j] == Led::black(),
            decreases leds - i,
        {
            dark.push(Led { r: 0, g: 0, b: 0 });
            i = i + 1;
        }
        Strip { stream, leds: dark, pending: false, rainbow: 0 }
    }

    /// Sets one position to a wire colour.
    pub fn set_led(&mut self, idx: usize, c: Rgb8)
        requires
            idx < old(self).leds@.len(),
        ensures
            final(self).leds@ == old(self).leds@.update(idx as int, Led::of(c)),
            final(self).pending,
            final(self).stream == old(self).stream,
            final(self).rainbow == old(self).rainbow,
    {
        self.leds[idx] = Led::from_rgb8(c);
        self.pending = true;
    }

    /// Applies the records of a sparse datagram in order. A record addressed
    /// past the end of the strip changes nothing.
    pub fn apply_sparse(&mut self, records: &[SparseRecord])
        ensures
            final(self).leds@ == sparse_applied(old(self).leds@, records@),
            final(self).pending == (old(self).pending || touches(
                records@,
                old(self).leds@.len() as int,
            )),
            final(self).stream == old(self).stream,
            final(self).rainbow == old(self).rainbow,
    {
        let ghost before = self.leds@;
        let ghost len = self.leds@.len() as int;
        let mut k: usize = 0;
        assert(records@.take(0).len() == 0);
        assert(self.leds@ =~= sparse_applied(before, records@.take(0)));
        while k < records.len()
            invariant
                k <= records.len(),
                len == before.len(),
                self.leds@ == sparse_applied(before, records@.take(k as int)),
                self.pending == (old(self).pending || touches(records@.take(k as int), len)),
                self.stream == old(self).stream,
                self.rainbow == old(self).rainbow,
            decreases records.len() - k,
        {
            let record = records[k];
            let ghost sooner = records@.take(k as int);
            let ghost later = records@.take(k + 1);
            proof {
                assert(later.drop_last() =~= sooner);
                assert(later.last() == record);
                if touches(sooner, len) {
                    let w = choose|w: int| 0 <= w < sooner.len() && (#[trigger] sooner[w]).index < len;
                    assert(later[w] == sooner[w]);
                }
                if touches(later, len) && !(record.index < len) {
                    let w = choose|w: int| 0 <= w < later.len() && (#[trigger] later[w]).index < len;
                    assert(sooner[w] == later[w]);
                }
                if record.index < len {
                    assert(later[k as int].index < len);
                }
            }
            if (record.index as usize) < self.leds.len() {
                self.set_led(record.index as usize, record.color);
            }
            assert(self.leds@ =~= sparse_applied(before, later));
            k = k + 1;
        }
        assert(records@.take(k as int) =~= records@);
    }

    /// Lays the colours of a sequential datagram over the start of the
    /// strip. Positions past the last colour keep what they hold, colours
    /// past the last position are ignored, and the strip is due for a flush
    /// in any case.
    pub fn apply_sequential(&mut self, pixels: &[Rgb8])
        ensures
            final(self).leds@ == sequential_applied(old(self).leds@, pixels@),
            forall|j: int|
                pixels@.len() <= j < old(self).leds@.len() ==> final(self).leds@[j] == old(self).leds@[j],
            final(self).pending,
            final(self).stream == old(self).stream,
            final(self).rainbow == old(self).rainbow,
    {
        let ghost before = self.leds@;
        self.pending = true;
        let n: usize = if pixels.len() <= self.leds.len() {
            pixels.len()
        } else {
            self.leds.len()
        };
        let mut i: usize = 0;
        while i < n
            invariant
                i <= n,
                n <= pixels.len(),
                n <= self.leds@.len(),
                self.leds@.len() == before.len(),
                forall|j: int| 0 <= j < i ==> self.leds@[j] == Led::of(pixels@[j]),
                forall|j: int| i <= j < before.len() ==> self.leds@[j] == before[j],
                self.pending,
                self.stream == old(self).stream,
                self.rainbow == old(self).rainbow,
            decreases n - i,
        {
            self.set_led(i, pixels[i]);
            i = i + 1;
        }
        assert(self.leds@ =~= sequential_applied(before, pixels@));
    }

    /// Flushes: hands out the frame for the sink and marks the strip as
    /// shown. The stored colours stay as they are, with the rainbow on or
    /// off.
    pub fn write(&mut self) -> (frame: Frame)
        ensures
            frame@ == frame_of(old(self).leds@, old(self).rainbow),
            final(self).leds == old(self).leds,
            !final(self).pending,
            final(self).stream == old(self).stream,
            final(self).rainbow == old(self).rainbow,
    {
        self.pending = false;
        let n: usize = self.leds.len();
        if self.rainbow != 0 {
            let mut stored: Vec<Led> = Vec::new();
            let mut shifts: Vec<u64> = Vec::new();
            let mut i: usize = 0;
            while i < n
                invariant
                    i <= n,
                    n == self.leds@.len(),
                    stored@ == self.leds@.take(i as int),
                    shifts@.len() == i,
                    forall|j: int|
                        0 <= j < i ==> shifts@[j] == hue_shifts(self.rainbow, n as int)[j],
                decreases n - i,
            {
                stored.push(self.leds[i]);
                shifts.push(shift_at(self.rainbow, i, n));
                i = i + 1;
            }
            assert(stored@ =~= self.leds@);
            assert(shifts@ =~= hue_shifts(self.rainbow, n as int));
            Frame::Rainbow { leds: stored, shifts }
        } else {
            let mut colors: Vec<Rgb8> = Vec::new();
            let mut i: usize = 0;
            while i < n
                invariant
                    i <= n,
                    n == self.leds@.len(),
                    colors@.len() == i,
                    forall|j: int| 0 <= j < i ==> colors@[j] == self.leds@[j].quantized(),
                decreases n - i,
            {
                colors.push(self.leds[i].to_rgb8());
                i = i + 1;
            }
            assert(colors@ =~= quantized(self.leds@));
            Frame::Plain(colors)
        }
    }
}

fn shift_at(speed: u32, i: usize, n: usize) -> (shift: u64)
    requires
        i < n,
    ensures
        shift == hue_shift(speed, i as int, n as int),
{
    let scaled: u128 = speed as u128 * 1000;
    assert(scaled * i <= 0xffff_ffff * 1000 * 0xffff_ffff_ffff_ffff) by (nonlinear_arith)
        requires
            scaled <= 0xffff_ffff * 1000,
            i <= 0xffff_ffff_ffff_ffff,
    ;
    let product: u128 = scaled * i as u128;
    let shift: u128 = product / n as u128;
    assert(shift <= scaled) by (nonlinear_arith)
        requires
            shift == product / (n as u128),
            product == scaled * i,
            0 <= i < n,
    ;
    shift as u64
}

/// Applies the payload of a sparse datagram: every four bytes are a position
/// and its new colour.
pub fn update_warls(strip: &mut Strip, buf: &[u8])
    ensures
        final(strip).leds@ == sparse_applied(old(strip).leds@, sparse_records(buf@)),
        final(strip).pending == (old(strip).pending || touches(
            sparse_records(buf@),
            old(strip).leds@.len() as int,
        )),
        final(strip).stream == old(strip).stream,
        final(strip).rainbow == old(strip).rainbow,
{
    let records = crate::protocol::parse_sparse(buf);
    strip.apply_sparse(records.as_slice());
}

/// Applies the payload of a sequential datagram: every three bytes are the
/// colour of the next position, from the start of the strip.
pub fn update_drgb(strip: &mut Strip, buf: &[u8])
    ensures
        final(strip).leds@ == sequential_applied(old(strip).leds@, triples(buf@)),
        forall|j: int|
            triples(buf@).len() <= j < old(strip).leds@.len() ==> final(strip).leds@[j] == old(strip).leds@[j],
        final(strip).pending,
        final(strip).stream == old(strip).stream,
        final(strip).rainbow == old(strip).rainbow,
{
    let pixels = crate::protocol::parse_triples(buf);
    strip.apply_sequential(pixels.as_slice());
}

/// Of a sparse update: the strip keeps its length; a position that no
/// record is addressed to keeps its colour, so a record addressed past the
/// end of the strip changes nothing; and a position holds the colour of the
/// record addressed to it that no later record to the same position follows.
pub proof fn lemma_sparse_positions(leds: Seq<Led>, records: Seq<SparseRecord>)
    ensures
        sparse_applied(leds, records).len() == leds.len(),
        forall|j: int|
            0 <= j < leds.len() && (forall|k: int|
                0 <= k < records.len() ==> (#[trigger] records[k]).index != j) ==> (
            #[trigger] sparse_applied(leds, records)[j]) == leds[j],
        forall|k: int|
            0 <= k < records.len() && (#[trigger] records[k]).index < leds.len() && (forall|m: int|
                k < m < records.len() ==> (#[trigger] records[m]).index != records[k].index)
                ==> sparse_applied(leds, records)[records[k].index as int] == Led::of(
                records[k].color,
            ),
{
    assert forall|j: int|
        0 <= j < leds.len() && (forall|k: int|
            0 <= k < records.len() ==> (#[trigger] records[k]).index != j) implies (
    #[trigger] sparse_applied(leds, records)[j]) == leds[j] by {
        lemma_sparse_untouched(leds[j], records, j);
    }
    assert forall|k: int|
        0 <= k < records.len() && (#[trigger] records[k]).index < leds.len() && (forall|m: int|
            k < m < records.len() ==> (#[trigger] records[m]).index != records[k].index)
            implies sparse_applied(leds, records)[records[k].index as int] == Led::of(
        records[k].color,
    ) by {
        lemma_sparse_last_wins(leds[records[k].index as int], records, k);
    }
}

proof fn lemma_sparse_untouched(prior: Led, records: Seq<SparseRecord>, j: int)
    requires
        forall|k: int| 0 <= k < records.len() ==> (#[trigger] records[k]).index != j,
    ensures
        sparse_led(prior, records, j) == prior,
    decreases records.len(),
{
    if records.len() > 0 {
        assert(records[records.len() - 1].index != j);
        assert forall|k: int| 0 <= k < records.drop_last().len() implies (
        #[trigger] records.drop_last()[k]).index != j by {
            assert(records[k].index != j);
        }
        lemma_sparse_untouched(prior, records.drop_last(), j);
    }
}

proof fn lemma_sparse_last_wins(prior: Led, records: Seq<SparseRecord>, k: int)
    requires
        0 <= k < records.len(),
        forall|m: int| k < m < records.len() ==> (#[trigger] records[m]).index != records[k].index,
    ensures
        sparse_led(prior, records, records[k].index as int) == Led::of(records[k].color),
    decreases records.len(),
{
    if k < records.len() - 1 {
        assert(records[records.len() - 1].index != records[k].index);
        assert forall|m: int| k < m < records.drop_last().len() implies (
        #[trigger] records.drop_last()[m]).index != records.drop_last()[k].index by {
            assert(records[m].index != records[k].index);
        }
        lemma_sparse_last_wins(prior, records.drop_last(), k);
    }
}

} // verus!
