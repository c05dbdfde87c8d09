//! The relay sink: the frame goes to one fixed peer as a single datagram in
//! the sequential format of the control protocol.

use vstd::prelude::*;
use crate::color::Rgb8;
use crate::protocol::{decoded, triples, CommandView};

verus! {

/// The mode byte of a relayed datagram: sequential colours.
pub const RELAY_MODE: u8 = 2;

/// The idle timeout, in seconds, that a relayed datagram asks of the peer.
pub const RELAY_TIMEOUT: u8 = 5;

/// The most colours that fit into one relayed datagram.
pub const RELAY_CAPACITY: usize = 490;

/// A sink that forwards the frame to the peer at `ip`:`port`.
#[derive(Clone, Copy, Debug)]
pub struct UdpStrip {
    pub ip: [u8; 4],
    pub port: u16,
}

/// How many colours of a frame of `len` colours are relayed.
pub open spec fn relayed(len: int) -> int {
    if len <= RELAY_CAPACITY {
        len
    } else {
        RELAY_CAPACITY as int
    }
}

/// Channel `k` of a colour: red, green, then blue.
pub open spec fn channel(c: Rgb8, k: int) -> u8 {
    if k == 0 {
        c.r
    } else if k == 1 {
        c.g
    } else {
        c.b
    }
}

/// The datagram for a frame: the mode, the timeout, then three bytes for
/// each relayed colour, in order.
pub open spec fn datagram(pixels: Seq<Rgb8>) -> Seq<u8> {
    Seq::new(
        (2 + 3 * relayed(pixels.len() as int)) as nat,
        |k: int|
            if k == 0 {
                RELAY_MODE
            } else if k == 1 {
                RELAY_TIMEOUT
            } else {
                channel(pixels[(k - 2) / 3], (k - 2) % 3)
            },
    )
}

impl UdpStrip {
    pub fn new(ip: [u8; 4], port: u16) -> (s: UdpStrip)
        ensures
            s.ip == ip,
            s.port == port,
    {
        UdpStrip { ip, port }
    }

    /// Frames `pixels` for the peer.
    pub fn write(&self, pixels: &[Rgb8]) -> (out: Vec<u8>)
        ensures
            out@ == datagram(pixels@),
    {
        let n: usize = if pixels.len() <= RELAY_CAPACITY {
            pixels.len()
        } else {
            RELAY_CAPACITY
        };
        let mut out: Vec<u8> = Vec::new();
        out.push(RELAY_MODE);
        out.push(RELAY_TIMEOUT);
        let mut i: usize = 0;
        while i < n
            invariant
                i <= n,
                n == relayed(pixels.len() as int),
                out.len() == 2 + 3 * i,
                forall|k: int| 0 <= k < out.len() ==> out[k] == datagram(pixels@)[k],
            decreases n - i,
        {
            let c = pixels[i];
            out.push(c.r);
            out.push(c.g);
            out.push(c.b);
            i = i + 1;
        }
        assert(out@ =~= datagram(pixels@));
        out
    }
}

/// A relayed datagram is a datagram of the control protocol: the peer reads
/// it as the relay's timeout and the relayed colours, in order, for the
/// start of its strip.
pub proof fn lemma_relay_reads_back(pixels: Seq<Rgb8>)
    ensures
        decoded(datagram(pixels)) == seq![
            CommandView::SetTimeout(RELAY_TIMEOUT),
            CommandView::SetSequential { pixels: pixels.take(relayed(pixels.len() as int)) },
        ],
{
    let d = datagram(pixels);
    let n = relayed(pixels.len() as int);
    let read = triples(d.skip(2));
    assert(d.skip(2).len() == 3 * n);
    assert(read.len() == n);
    assert forall|i: int| 0 <= i < n implies read[i] == pixels[i] by {
        assert(d.skip(2)[3 * i] == d[3 * i + 2]);
        assert(d.skip(2)[3 * i + 1] == d[3 * i + 3]);
        assert(d.skip(2)[3 * i + 2] == d[3 * i + 4]);
    }
    assert(read =~= pixels.take(n));
}

} // verus!
