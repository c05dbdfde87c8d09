//! Output sinks: where a frame goes, and how sinks compose. A sink turns a
//! frame into transfers, one for each backend that it reaches; the caller
//! carries them out and reports back how each of them ended.

pub mod dbgimg;
pub mod huee;
pub mod udpstrip;

use vstd::prelude::*;
use vstd::string::StringExecFns;
use crate::color::Rgb8;
use crate::sampling::{samplable, scale, scaled};
use crate::strip_transport::dbgimg::{Capture, DebugImage, drawn};
use crate::strip_transport::huee::{frame, Hue};
use crate::strip_transport::udpstrip::{datagram, UdpStrip};

verus! {

/// A sink, or a composition of sinks.
#[derive(Debug)]
pub enum StripTransport {
    /// The physical strip on the local bus.
    Ws2812,
    /// The fixtures of a lighting hub, over a secure stream.
    Hue(Hue),
    /// A peer that takes the frame as a datagram.
    Udp(UdpStrip),
    /// A diagnostic image of the frames.
    DebugImage(DebugImage),
    /// Several sinks that all receive every frame.
    Composite(Vec<StripTransport>),
    /// One sink that receives a downsampled stretch of every frame.
    Sampled(SampledStripTransport),
}

/// A sink behind a sampler: of every frame the stretch `start..end` reaches
/// `base`, cut down to `count` colours.
#[derive(Debug)]
pub struct SampledStripTransport {
    pub base: Box<StripTransport>,
    pub start: usize,
    pub end: usize,
    pub count: usize,
}

/// Why a sink cannot be put behind a sampler.
#[derive(Clone, Copy, Debug, PartialEq, Eq, Structural)]
pub enum SampleError {
    /// The sink is a composite or is sampled already.
    Nested,
}

/// What a backend is to be given.
#[derive(Debug, PartialEq, Eq)]
pub enum Transfer {
    /// These colours, to the bus.
    Bus(Vec<Rgb8>),
    /// This datagram, to the peer at `ip`:`port`.
    Datagram { ip: [u8; 4], port: u16, payload: Vec<u8> },
    /// This frame, to the hub over the secure stream.
    Secure(Vec<u8>),
    /// This image, to be kept.
    Keep(Capture),
    /// Nothing this time.
    Idle,
}

/// The failure of a write: the position, among the backends, of the first
/// one whose failure stops the program.
#[derive(Clone, Copy, Debug, PartialEq, Eq, Structural)]
pub struct WriteError {
    pub sink: usize,
}

impl StripTransport {
    /// A sink that delivers to a backend by itself.
    pub open spec fn is_leaf(self) -> bool {
        self is Ws2812 || self is Hue || self is Udp || self is DebugImage
    }

    /// A sink that reaches exactly one backend: a leaf, or a well-made
    /// sampler in front of a leaf.
    pub open spec fn is_single(self) -> bool {
        ||| self.is_leaf()
        ||| (self matches StripTransport::Sampled(s) && s.base.is_leaf() && samplable(
            s.start as int,
            s.end as int,
            s.count as int,
        ))
    }

    /// The sink is well made: a single sink, or a composite of single sinks.
    pub open spec fn wf(self) -> bool {
        ||| self.is_single()
        ||| (self matches StripTransport::Composite(children) && forall|i: int|
            0 <= i < children@.len() ==> (#[trigger] children@[i]).is_single())
    }

    /// Whether the sink streams to a hub, directly or behind a sampler.
    pub open spec fn streams_to_hub(self) -> bool {
        ||| self is Hue
        ||| (self matches StripTransport::Sampled(s) && *s.base is Hue)
    }

    /// Whether the sink draws a diagnostic image, directly or behind a
    /// sampler.
    pub open spec fn is_diagnostic(self) -> bool {
        ||| self is DebugImage
        ||| (self matches StripTransport::Sampled(s) && *s.base is DebugImage)
    }

    /// Whether a transfer that fails at this sink fails the write. A hub
    /// sink degrades instead, and a diagnostic image is never worth a
    /// failure.
    pub open spec fn is_vital(self) -> bool {
        !self.streams_to_hub() && !self.is_diagnostic()
    }

    /// How many backends the sink reaches.
    pub open spec fn backends(self) -> nat {
        match self {
            StripTransport::Composite(children) => children@.len(),
            _ => 1,
        }
    }

    /// The sink for the strip on the local bus.
    pub fn ws2812() -> (s: StripTransport)
        ensures
            s is Ws2812,
            s.wf(),
    {
        StripTransport::Ws2812
    }

    /// The sink for an established secure stream to `lights`.
    pub fn hue(desc: String, lights: Vec<u16>) -> (s: StripTransport)
        ensures
            s matches StripTransport::Hue(h) && h.fixtures() == lights@ && h.is_connected()
                && h.label() == desc@,
            s.wf(),
    {
        StripTransport::Hue(Hue::new(desc, lights))
    }

    /// The sink that relays to the peer at `ip`:`port`.
    pub fn udp(ip: [u8; 4], port: u16) -> (s: StripTransport)
        ensures
            s matches StripTransport::Udp(u) && u.ip == ip && u.port == port,
            s.wf(),
    {
        StripTransport::Udp(UdpStrip::new(ip, port))
    }

    /// The sink that draws frames into a dark image of the given size.
    pub fn debug_image(width: u32, height: u32) -> (s: StripTransport)
        requires
            3 * width * height <= isize::MAX,
        ensures
            s matches StripTransport::DebugImage(d) && d.size() == (width as nat, height as nat)
                && d.column() == 0 && d.number() == 0,
            s.wf(),
    {
        StripTransport::DebugImage(DebugImage::new(width, height))
    }

    /// The composite of `transports`, in their order.
    pub fn composite(transports: Vec<StripTransport>) -> (s: StripTransport)
        ensures
            s == StripTransport::Composite(transports),
    {
        StripTransport::Composite(transports)
    }

    /// Puts this sink behind a sampler of the stretch `start..end`, cut down
    /// to `count` colours. Only a leaf can stand behind a sampler. Any range
    /// and count are taken; the sampler is well made, and fit to be written
    /// to, exactly if the stretch holds at least one position for each
    /// colour.
    pub fn sample(self, start: usize, end: usize, count: usize) -> (r: Result<
        StripTransport,
        SampleError,
    >)
        ensures
            !self.is_leaf() ==> r == Err::<StripTransport, SampleError>(SampleError::Nested),
            self.is_leaf() ==> {
                &&& r matches Ok(StripTransport::Sampled(s))
                &&& *s.base == self
                &&& s.start == start
                &&& s.end == end
                &&& s.count == count
                &&& (r.unwrap().wf() <==> samplable(start as int, end as int, count as int))
            },
    {
        match self {
            StripTransport::Composite(_) => Err(SampleError::Nested),
            StripTransport::Sampled(_) => Err(SampleError::Nested),
            _ => Ok(
                StripTransport::Sampled(
                    SampledStripTransport { base: Box::new(self), start, end, count },
                ),
            ),
        }
    }
}

/// What a write does to a leaf: `before` and `after` are the sink around
/// it, `t` is what it hands out for the frame `pixels`.
pub open spec fn leaf_written(
    before: StripTransport,
    after: StripTransport,
    pixels: Seq<Rgb8>,
    t: Transfer,
) -> bool {
    match before {
        StripTransport::Ws2812 => after is Ws2812 && (t matches Transfer::Bus(colors) && colors@
            == pixels),
        StripTransport::Udp(u) => after == before && (t matches Transfer::Datagram {
            ip,
            port,
            payload,
        } && ip == u.ip && port == u.port && payload@ == datagram(pixels)),
        StripTransport::Hue(h) => after == before && (if h.is_connected() {
            t matches Transfer::Secure(bytes) && bytes@ == frame(h.fixtures(), pixels)
        } else {
            t is Idle
        }),
        StripTransport::DebugImage(d) => after matches StripTransport::DebugImage(d2) && (match t {
            Transfer::Keep(capture) => drawn(d, d2, pixels, Some(capture)),
            Transfer::Idle => drawn(d, d2, pixels, None),
            _ => false,
        }),
        _ => false,
    }
}

/// What a write does to a single sink: a sampler hands its leaf the
/// downsampled stretch, a leaf takes the frame as it is.
pub open spec fn single_written(
    before: StripTransport,
    after: StripTransport,
    pixels: Seq<Rgb8>,
    t: Transfer,
) -> bool {
    match before {
        StripTransport::Sampled(s) => {
            &&& after matches StripTransport::Sampled(s2)
            &&& s2.start == s.start
            &&& s2.end == s.end
            &&& s2.count == s.count
            &&& leaf_written(
                *s.base,
                *s2.base,
                scaled(pixels, s.start as int, s.end as int, s.count as int),
                t,
            )
        },
        _ => leaf_written(before, after, pixels, t),
    }
}

/// What a write does: every child of a composite is written the same frame
/// and hands out one transfer, in the order of the children; a single sink
/// hands out its one transfer.
pub open spec fn written(
    before: StripTransport,
    after: StripTransport,
    pixels: Seq<Rgb8>,
    ts: Seq<Transfer>,
) -> bool {
    match before {
        StripTransport::Composite(children) => {
            &&& after matches StripTransport::Composite(children2)
            &&& children2@.len() == children@.len()
            &&& ts.len() == children@.len()
            &&& forall|i: int|
                0 <= i < children@.len() ==> single_written(
                    #[trigger] children@[i],
                    children2@[i],
                    pixels,
                    ts[i],
                )
        },
        _ => ts.len() == 1 && single_written(before, after, pixels, ts[0]),
    }
}

fn copied(pixels: &[Rgb8]) -> (out: Vec<Rgb8>)
    ensures
        out@ == pixels@,
{
    let mut out: Vec<Rgb8> = Vec::new();
    let mut i: usize = 0;
    while i < pixels.len()
        invariant
            i <= pixels.len(),
            out@ == pixels@.take(i as int),
        decreases pixels.len() - i,
    {
        out.push(pixels[i]);
        i = i + 1;
    }
    out
}

impl StripTransport {
    /// Writes a frame to a sink. What comes back is one transfer for each
    /// backend that the sink reaches, in order: the caller carries them out,
    /// all of them, and reports with `settle` how they ended.
    pub fn write(&mut self, pixels: &[Rgb8]) -> (ts: Vec<Transfer>)
        requires
            old(self).wf(),
        ensures
            written(*old(self), *final(self), pixels@, ts@),
            final(self).wf(),
            ts@.len() == old(self).backends(),
            final(self).backends() == old(self).backends(),
    {
        let mut ts: Vec<Transfer> = Vec::new();
        match self {
            StripTransport::Composite(children) => {
                let ghost before = children@;
                let n: usize = children.len();
                let mut i: usize = 0;
                while i < n
                    invariant
                        i <= n,
                        n == before.len(),
                        children@.len() == n,
                        ts@.len() == i,
                        forall|k: int| 0 <= k < n ==> (#[trigger] before[k]).is_single(),
                        forall|k: int| i <= k < n ==> children@[k] == before[k],
                        forall|k: int|
                            0 <= k < i ==> single_written(
                                #[trigger] before[k],
                                children@[k],
                                pixels@,
                                ts@[k],
                            ) && children@[k].is_single(),
                    decreases n - i,
                {
                    assert(before[i as int].is_single());
                    let t = children[i].write_single(pixels);
                    ts.push(t);
                    i = i + 1;
                }
                assert forall|k: int| 0 <= k < n implies (#[trigger] children@[k]).is_single() by {
                    assert(before[k].is_single());
                }
            },
            _ => {
                let t = self.write_single(pixels);
                ts.push(t);
            },
        }
        ts
    }

    fn write_single(&mut self, pixels: &[Rgb8]) -> (t: Transfer)
        requires
            old(self).is_single(),
        ensures
            single_written(*old(self), *final(self), pixels@, t),
            final(self).is_single(),
    {
        match self {
            StripTransport::Sampled(s) => {
                let narrowed = scale(pixels, s.start, s.end, s.count);
                s.base.write_base(narrowed.as_slice())
            },
            _ => self.write_base(pixels),
        }
    }

    fn write_base(&mut self, pixels: &[Rgb8]) -> (t: Transfer)
        requires
            old(self).is_leaf(),
        ensures
            leaf_written(*old(self), *final(self), pixels@, t),
            final(self).is_leaf(),
    {
        match self {
            StripTransport::Hue(h) => match h.write(pixels) {
                Some(bytes) => Transfer::Secure(bytes),
                None => Transfer::Idle,
            },
            StripTransport::Udp(u) => Transfer::Datagram {
                ip: u.ip,
                port: u.port,
                payload: u.write(pixels),
            },
            StripTransport::DebugImage(d) => match d.write(pixels) {
                Some(capture) => Transfer::Keep(capture),
                None => Transfer::Idle,
            },
            _ => Transfer::Bus(copied(pixels)),
        }
    }
}

/// What the end of a transfer does to a hub sink: it stays connected only
/// if it was connected and the transfer was delivered.
pub open spec fn hub_settled(before: Hue, after: Hue, delivered: bool) -> bool {
    &&& after.is_connected() == (before.is_connected() && delivered)
    &&& after.fixtures() == before.fixtures()
    &&& after.label() == before.label()
}

/// What the end of its transfer does to a single sink: a hub sink, plain or
/// sampled, takes note of it, and any other sink stays as it is.
pub open spec fn single_settled(before: StripTransport, after: StripTransport, delivered: bool) -> bool {
    match before {
        StripTransport::Hue(h) => after matches StripTransport::Hue(h2) && hub_settled(
            h,
            h2,
            delivered,
        ),
        StripTransport::Sampled(s) => match *s.base {
            StripTransport::Hue(h) => {
                &&& after matches StripTransport::Sampled(s2)
                &&& s2.start == s.start
                &&& s2.end == s.end
                &&& s2.count == s.count
                &&& *s2.base matches StripTransport::Hue(h2)
                &&& hub_settled(h, h2, delivered)
            },
            _ => after == before,
        },
        _ => after == before,
    }
}

/// The single sink that stands at position `i` among the backends.
pub open spec fn sink_at(t: StripTransport, i: int) -> StripTransport {
    match t {
        StripTransport::Composite(children) => children@[i],
        _ => t,
    }
}

/// Whether the transfer at position `i` was delivered. One that has no
/// outcome counts as delivered.
pub open spec fn delivered_at(outcomes: Seq<bool>, i: int) -> bool {
    0 <= i < outcomes.len() ==> outcomes[i]
}

/// Whether the transfer at position `i` failed at a sink whose failure
/// fails the write.
pub open spec fn fatal_at(t: StripTransport, outcomes: Seq<bool>, i: int) -> bool {
    &&& 0 <= i < t.backends()
    &&& !delivered_at(outcomes, i)
    &&& sink_at(t, i).is_vital()
}

/// One failure is enough: where the transfer of a vital sink failed, some
/// transfer counts as a failure of the write, whatever became of the other
/// transfers, so that settling reports an error.
pub proof fn lemma_one_failure_fails_the_write(t: StripTransport, outcomes: Seq<bool>, i: int)
    requires
        0 <= i < t.backends(),
        i < outcomes.len(),
        !outcomes[i],
        sink_at(t, i).is_vital(),
    ensures
        exists|k: int| fatal_at(t, outcomes, k),
{
    assert(fatal_at(t, outcomes, i));
}

/// What settling does to a sink: each single sink in it takes note of the
/// end of its own transfer.
pub open spec fn settled(before: StripTransport, after: StripTransport, outcomes: Seq<bool>) -> bool {
    match before {
        StripTransport::Composite(children) => {
            &&& after matches StripTransport::Composite(children2)
            &&& children2@.len() == children@.len()
            &&& forall|i: int|
                0 <= i < children@.len() ==> single_settled(
                    #[trigger] children@[i],
                    children2@[i],
                    delivered_at(outcomes, i),
                )
        },
        _ => single_settled(before, after, delivered_at(outcomes, 0)),
    }
}

impl StripTransport {
    /// Whether the sink is well made.
    #[verifier::loop_isolation(false)]
    pub fn is_valid(&self) -> (b: bool)
        ensures
            b == self.wf(),
    {
        match self {
            StripTransport::Composite(children) => {
                let mut i: usize = 0;
                while i < children.len()
                    invariant
                        i <= children.len(),
                        forall|k: int| 0 <= k < i ==> (#[trigger] children@[k]).is_single(),
                    decreases children.len() - i,
                {
                    if !children[i].is_one() {
                        assert(!children@[i as int].is_single());
                        return false;
                    }
                    i = i + 1;
                }
                true
            },
            _ => self.is_one(),
        }
    }

    fn is_one(&self) -> (b: bool)
        ensures
            b == self.is_single(),
    {
        match self {
            StripTransport::Composite(_) => false,
            StripTransport::Sampled(s) => {
                let leaf = match &*s.base {
                    StripTransport::Composite(_) => false,
                    StripTransport::Sampled(_) => false,
                    _ => true,
                };
                leaf && s.count > 0 && s.start <= s.end && s.end - s.start >= s.count
            },
            _ => true,
        }
    }

    /// Takes note of how the transfers of the last write ended: `outcomes`
    /// says of each, in their order, whether it was delivered. The write has
    /// failed if a transfer failed at the bus or at a relay, whatever became
    /// of the others, and the error names the first such sink. A hub sink
    /// whose transfer failed fails nothing: it is disconnected from then on.
    /// A diagnostic image that could not be kept fails nothing either.
    pub fn settle(&mut self, outcomes: &[bool]) -> (r: Result<(), WriteError>)
        requires
            old(self).wf(),
        ensures
            settled(*old(self), *final(self), outcomes@),
            final(self).wf(),
            final(self).backends() == old(self).backends(),
            r is Err <==> exists|i: int| fatal_at(*old(self), outcomes@, i),
            r matches Err(e) ==> fatal_at(*old(self), outcomes@, e.sink as int) && forall|j: int|
                0 <= j < e.sink ==> !fatal_at(*old(self), outcomes@, j),
    {
        let ghost start = *self;
        let mut first: Option<usize> = None;
        match self {
            StripTransport::Composite(children) => {
                let ghost before = children@;
                let n: usize = children.len();
                let mut i: usize = 0;
                while i < n
                    invariant
                        i <= n,
                        n == before.len(),
                        children@.len() == n,
                        start is Composite,
                        start->Composite_0@ == before,
                        forall|k: int| 0 <= k < n ==> (#[trigger] before[k]).is_single(),
                        forall|k: int| i <= k < n ==> children@[k] == before[k],
                        forall|k: int|
                            0 <= k < i ==> single_settled(
                                #[trigger] before[k],
                                children@[k],
                                delivered_at(outcomes@, k),
                            ) && children@[k].is_single(),
                        first is None ==> forall|k: int| 0 <= k < i ==> !fatal_at(start, outcomes@, k),
                        first matches Some(f) ==> f < i && fatal_at(start, outcomes@, f as int)
                            && forall|k: int| 0 <= k < f ==> !fatal_at(start, outcomes@, k),
                    decreases n - i,
                {
                    assert(before[i as int].is_single());
                    let delivered: bool = i >= outcomes.len() || outcomes[i];
                    let fatal = children[i].settle_single(delivered);
                    if fatal && first.is_none() {
                        first = Some(i);
                    }
                    i = i + 1;
                }
                assert forall|k: int| 0 <= k < n implies (#[trigger] children@[k]).is_single() by {
                    assert(before[k].is_single());
                }
            },
            _ => {
                let delivered: bool = 0 >= outcomes.len() || outcomes[0];
                let fatal = self.settle_single(delivered);
                if fatal {
                    first = Some(0);
                }
            },
        }
        match first {
            Some(sink) => {
                assert(fatal_at(*old(self), outcomes@, sink as int));
                Err(WriteError { sink })
            },
            None => Ok(()),
        }
    }

    fn settle_single(&mut self, delivered: bool) -> (fatal: bool)
        requires
            old(self).is_single(),
        ensures
            single_settled(*old(self), *final(self), delivered),
            final(self).is_single(),
            fatal == (!delivered && old(self).is_vital()),
    {
        match self {
            StripTransport::Hue(h) => {
                h.sent(delivered);
                false
            },
            StripTransport::DebugImage(_) => false,
            StripTransport::Sampled(s) => {
                if is_hue(&*s.base) {
                    s.base.settle_hub(delivered);
                    false
                } else {
                    match &*s.base {
                        StripTransport::DebugImage(_) => false,
                        _ => !delivered,
                    }
                }
            },
            _ => !delivered,
        }
    }

    fn settle_hub(&mut self, delivered: bool)
        requires
            *old(self) is Hue,
        ensures
            *final(self) matches StripTransport::Hue(h2) && hub_settled(
                old(self)->Hue_0,
                h2,
                delivered,
            ),
    {
        match self {
            StripTransport::Hue(h) => {
                h.sent(delivered);
            },
            _ => {},
        }
    }
}

/// The children of a composite that stay when the hub sinks leave.
pub open spec fn without_hub(children: Seq<StripTransport>) -> Seq<StripTransport> {
    children.filter(|c: StripTransport| !c.streams_to_hub())
}

/// Where no child streams to a hub, taking the hub sinks out leaves the
/// children as they are.
pub proof fn lemma_without_hub_keeps(children: Seq<StripTransport>)
    requires
        forall|i: int| 0 <= i < children.len() ==> !(#[trigger] children[i]).streams_to_hub(),
    ensures
        without_hub(children) == children,
    decreases children.len(),
{
    reveal(Seq::filter);
    if children.len() > 0 {
        let front = children.drop_last();
        assert forall|i: int| 0 <= i < front.len() implies !(#[trigger] front[i]).streams_to_hub() by {
            assert(!children[i].streams_to_hub());
        }
        lemma_without_hub_keeps(front);
        assert(!children[children.len() - 1].streams_to_hub());
        assert(front.push(children.last()) =~= children);
    }
}

/// What is left when the hub sinks are taken out holds no hub sink.
pub proof fn lemma_without_hub_clean(children: Seq<StripTransport>)
    ensures
        forall|i: int|
            0 <= i < without_hub(children).len() ==> !(#[trigger] without_hub(
                children,
            )[i]).streams_to_hub(),
{
    let keep = |c: StripTransport| !c.streams_to_hub();
    assert forall|i: int| 0 <= i < without_hub(children).len() implies !(#[trigger] without_hub(
        children,
    )[i]).streams_to_hub() by {
        children.lemma_filter_pred(keep, i);
    }
}

impl StripTransport {
    /// Whether a child of this composite streams to a hub. A sink that is no
    /// composite has no children.
    pub open spec fn has_hub_child(self) -> bool {
        self matches StripTransport::Composite(children) && exists|i: int|
            0 <= i < children@.len() && (#[trigger] children@[i]).streams_to_hub()
    }

    /// Whether a child of this composite streams to a hub.
    #[verifier::loop_isolation(false)]
    pub fn has_hue(&self) -> (b: bool)
        ensures
            b == self.has_hub_child(),
    {
        match self {
            StripTransport::Composite(children) => {
                let mut i: usize = 0;
                while i < children.len()
                    invariant
                        i <= children.len(),
                        forall|k: int| 0 <= k < i ==> !(#[trigger] children@[k]).streams_to_hub(),
                    decreases children.len() - i,
                {
                    if is_hue(&children[i]) {
                        assert(children@[i as int].streams_to_hub());
                        return true;
                    }
                    i = i + 1;
                }
                false
            },
            _ => false,
        }
    }

    /// Takes the hub sinks out of a composite; the other children stay, in
    /// their order. A sink that is no composite stays as it is.
    pub fn remove_hue(&mut self)
        ensures
            *old(self) matches StripTransport::Composite(children) ==> *final(self)
                matches StripTransport::Composite(kept) && kept@ == without_hub(children@),
            !(*old(self) is Composite) ==> *final(self) == *old(self),
            old(self).wf() ==> final(self).wf(),
            !final(self).has_hub_child(),
    {
        match self {
            StripTransport::Composite(children) => {
                let ghost before = children@;
                let ghost keep = |c: StripTransport| !c.streams_to_hub();
                let ghost mut j: int = 0;
                let mut i: usize = 0;
                proof {
                    reveal(Seq::filter);
                    assert(before.take(0).filter(keep) =~= children@.take(0));
                    assert(children@.skip(0) =~= before.skip(0));
                }
                while i < children.len()
                    invariant
                        0 <= j <= before.len(),
                        i <= children@.len(),
                        children@.len() - i == before.len() - j,
                        keep == |c: StripTransport| !c.streams_to_hub(),
                        children@.take(i as int) == before.take(j).filter(keep),
                        children@.skip(i as int) == before.skip(j),
                    decreases children@.len() - i,
                {
                    proof {
                        reveal(Seq::filter);
                        assert(before.take(j + 1).drop_last() =~= before.take(j));
                        assert(before.take(j + 1).last() == before[j]);
                        assert(children@[i as int] == children@.skip(i as int)[0]);
                        assert(before[j] == before.skip(j)[0]);
                    }
                    if is_hue(&children[i]) {
                        let ghost prior = children@;
                        children.remove(i);
                        proof {
                            assert(children@.take(i as int) =~= prior.take(i as int));
                            assert forall|m: int| i <= m < children@.len() implies #[trigger] children@[m]
                                == before[m - i + j + 1] by {
                                assert(prior.skip(i as int)[m - i + 1] == before.skip(j)[m - i + 1]);
                            }
                            assert(children@.skip(i as int) =~= before.skip(j + 1));
                        }
                    } else {
                        proof {
                            assert(children@.take(i + 1) =~= children@.take(i as int).push(
                                children@[i as int],
                            ));
                            assert forall|m: int| i < m < children@.len() implies #[trigger] children@[m]
                                == before[m - i + j] by {
                                assert(children@.skip(i as int)[m - i] == before.skip(j)[m - i]);
                            }
                            assert(children@.skip(i + 1) =~= before.skip(j + 1));
                        }
                        i = i + 1;
                    }
                    proof {
                        j = j + 1;
                    }
                }
                proof {
                    assert(children@.take(i as int) =~= children@);
                    assert(before.take(j) =~= before);
                    lemma_without_hub_clean(before);
                    if old(self).wf() {
                        assert forall|k: int| 0 <= k < children@.len() implies (
                        #[trigger] children@[k]).is_single() by {
                            before.lemma_filter_contains_rev(keep, children@[k]);
                            let w = choose|w: int| 0 <= w < before.len() && before[w] == children@[k];
                            assert(before[w].is_single());
                        }
                    }
                }
            },
            _ => {},
        }
    }

    /// Adds `sink` as the last child of a composite. A sink that is no
    /// composite stays as it is.
    pub fn attach(&mut self, sink: StripTransport)
        ensures
            *old(self) matches StripTransport::Composite(children) ==> *final(self)
                matches StripTransport::Composite(grown) && grown@ == children@.push(sink),
            !(*old(self) is Composite) ==> *final(self) == *old(self),
            old(self).wf() && sink.is_single() ==> final(self).wf(),
    {
        match self {
            StripTransport::Composite(children) => {
                children.push(sink);
            },
            _ => {},
        }
    }
}

/// The character that writes a digit.
pub open spec fn digit(d: int) -> char {
    if d == 0 {
        '0'
    } else if d == 1 {
        '1'
    } else if d == 2 {
        '2'
    } else if d == 3 {
        '3'
    } else if d == 4 {
        '4'
    } else if d == 5 {
        '5'
    } else if d == 6 {
        '6'
    } else if d == 7 {
        '7'
    } else if d == 8 {
        '8'
    } else {
        '9'
    }
}

/// A number in decimal digits.
pub open spec fn decimal(n: nat) -> Seq<char>
    decreases n,
{
    if n < 10 {
        seq![digit(n as int)]
    } else {
        decimal(n / 10).push(digit((n % 10) as int))
    }
}

/// The address of a peer as text: the four numbers of the host with dots
/// between them, a colon and the port.
pub open spec fn address(ip: [u8; 4], port: u16) -> Seq<char> {
    decimal(ip[0] as nat) + "."@ + decimal(ip[1] as nat) + "."@ + decimal(ip[2] as nat) + "."@
        + decimal(ip[3] as nat) + ":"@ + decimal(port as nat)
}

/// The descriptions of the first `n` of `children`, with a comma and a
/// space between them.
pub open spec fn described_list(children: Vec<StripTransport>, n: nat) -> Seq<char>
    decreases children, n,
{
    if n == 0 || n > children.len() {
        Seq::empty()
    } else if n == 1 {
        children[0].described()
    } else {
        described_list(children, (n - 1) as nat) + ", "@ + children[n - 1].described()
    }
}

impl StripTransport {
    /// The sink in a line of text: a leaf by its kind and where it
    /// delivers to, a composite as the list of its children, a sampler as
    /// its sink followed by the range and the count.
    pub open spec fn described(self) -> Seq<char>
        decreases self, 0nat,
    {
        match self {
            StripTransport::Ws2812 => "ws2812"@,
            StripTransport::Hue(h) => "hue:"@ + h.label(),
            StripTransport::Udp(u) => "udp:"@ + address(u.ip, u.port),
            StripTransport::DebugImage(_) => "dbg"@,
            StripTransport::Composite(children) => "(["@ + described_list(
                children,
                children.len() as nat,
            ) + "])"@,
            StripTransport::Sampled(s) => s.base.described() + "["@ + decimal(s.start as nat)
                + ".."@ + decimal(s.end as nat) + ":"@ + decimal(s.count as nat) + "]"@,
        }
    }

    /// Describes the sink in a line of text.
    pub fn describe(&self) -> (text: String)
        ensures
            text@ == self.described(),
    {
        let mut text = String::new();
        self.describe_into(&mut text);
        assert(Seq::<char>::empty() + self.described() =~= self.described());
        text
    }

    fn describe_into(&self, out: &mut String)
        ensures
            final(out)@ == old(out)@ + self.described(),
        decreases self,
    {
        let ghost start = out@;
        match self {
            StripTransport::Ws2812 => {
                out.append("ws2812");
            },
            StripTransport::Hue(h) => {
                out.append("hue:");
                out.append(h.desc().as_str());
                assert(out@ =~= start + ("hue:"@ + h.label()));
            },
            StripTransport::Udp(u) => {
                out.append("udp:");
                push_address(out, &u.ip, u.port);
                assert(out@ =~= start + ("udp:"@ + address(u.ip, u.port)));
            },
            StripTransport::DebugImage(_) => {
                out.append("dbg");
            },
            StripTransport::Composite(children) => {
                out.append("([");
                describe_children(children, out);
                out.append("])");
                assert(out@ =~= start + ("(["@ + described_list(*children, children.len() as nat)
                    + "])"@));
            },
            StripTransport::Sampled(s) => {
                s.base.describe_into(out);
                let ghost base = out@;
                push_sampling(out, s.start, s.end, s.count);
                assert(out@ =~= start + (s.base.described() + "["@ + decimal(s.start as nat)
                    + ".."@ + decimal(s.end as nat) + ":"@ + decimal(s.count as nat) + "]"@));
            },
        }
    }
}

fn describe_children(children: &Vec<StripTransport>, out: &mut String)
    ensures
        final(out)@ == old(out)@ + described_list(*children, children.len() as nat),
    decreases children,
{
    let ghost start = out@;
    let mut i: usize = 0;
    assert(out@ =~= start + described_list(*children, 0));
    while i < children.len()
        invariant
            i <= children.len(),
            out@ == start + described_list(*children, i as nat),
        decreases children.len() - i,
    {
        if i > 0 {
            out.append(", ");
        }
        children[i].describe_into(out);
        assert(out@ =~= start + described_list(*children, (i + 1) as nat));
        i = i + 1;
    }
}

fn push_address(out: &mut String, ip: &[u8; 4], port: u16)
    ensures
        final(out)@ == old(out)@ + address(*ip, port),
{
    let ghost start = out@;
    push_decimal(out, ip[0] as usize);
    out.append(".");
    push_decimal(out, ip[1] as usize);
    out.append(".");
    push_decimal(out, ip[2] as usize);
    out.append(".");
    push_decimal(out, ip[3] as usize);
    out.append(":");
    push_decimal(out, port as usize);
    assert(out@ =~= start + address(*ip, port));
}

fn push_sampling(out: &mut String, start: usize, end: usize, count: usize)
    ensures
        final(out)@ == old(out)@ + "["@ + decimal(start as nat) + ".."@ + decimal(end as nat) + ":"@
            + decimal(count as nat) + "]"@,
{
    out.append("[");
    push_decimal(out, start);
    out.append("..");
    push_decimal(out, end);
    out.append(":");
    push_decimal(out, count);
    out.append("]");
}

fn digit_text(d: usize) -> (text: &'static str)
    requires
        d < 10,
    ensures
        text@ == seq![digit(d as int)],
{
    proof {
        reveal_strlit("0");
        reveal_strlit("1");
        reveal_strlit("2");
        reveal_strlit("3");
        reveal_strlit("4");
        reveal_strlit("5");
        reveal_strlit("6");
        reveal_strlit("7");
        reveal_strlit("8");
        reveal_strlit("9");
    }
    let text = if d == 0 {
        "0"
    } else if d == 1 {
        "1"
    } else if d == 2 {
        "2"
    } else if d == 3 {
        "3"
    } else if d == 4 {
        "4"
    } else if d == 5 {
        "5"
    } else if d == 6 {
        "6"
    } else if d == 7 {
        "7"
    } else if d == 8 {
        "8"
    } else {
        "9"
    };
    assert(text@ =~= seq![digit(d as int)]);
    text
}

fn push_decimal(out: &mut String, n: usize)
    ensures
        final(out)@ == old(out)@ + decimal(n as nat),
    decreases n,
{
    let ghost start = out@;
    if n >= 10 {
        push_decimal(out, n / 10);
    }
    out.append(digit_text(n % 10));
    assert(out@ =~= start + decimal(n as nat));
}

/// Whether `target` streams to a hub, directly or behind a sampler.
pub fn is_hue(target: &StripTransport) -> (b: bool)
    ensures
        b == target.streams_to_hub(),
{
    match target {
        StripTransport::Sampled(s) => match &*s.base {
            StripTransport::Hue(_) => true,
            _ => false,
        },
        StripTransport::Hue(_) => true,
        _ => false,
    }
}

} // verus!
