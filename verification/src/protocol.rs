//! The control protocol: what a datagram asks for. Two binary forms carry
//! colours, a handful of exact texts switch effects, and everything else is
//! ignored.

use vstd::prelude::*;
use crate::color::Rgb8;

verus! {

/// The mode byte of a datagram of indexed records.
pub const MODE_SPARSE: u8 = 1;

/// The mode byte of a datagram of colours in strip order.
pub const MODE_SEQUENTIAL: u8 = 2;

/// One record of a sparse datagram: a position and its new colour.
#[derive(Clone, Copy, Debug, PartialEq, Eq, Structural)]
pub struct SparseRecord {
    pub index: u8,
    pub color: Rgb8,
}

/// What a datagram asks for.
#[derive(Debug, PartialEq, Eq)]
pub enum Command {
    /// Set the given positions to the given colours.
    SetSparse { records: Vec<SparseRecord> },
    /// Set the first positions of the strip to these colours, in order.
    SetSequential { pixels: Vec<Rgb8> },
    /// Go idle after this many seconds without a frame; 255 stands for the
    /// longest timeout there is.
    SetTimeout(u8),
    /// Start the alert.
    ToggleAlert,
    /// Switch the audio visualisation.
    ToggleAudioVis,
    /// Switch the rainbow.
    ToggleRainbow,
    /// Set the rainbow's speed, in units of thirty degrees.
    SetRainbowSpeedUnits(u8),
    /// Let the hub sink join or leave.
    ToggleSecureStreamMembership,
}

/// A command with its lists as sequences.
pub enum CommandView {
    SetSparse { records: Seq<SparseRecord> },
    SetSequential { pixels: Seq<Rgb8> },
    SetTimeout(u8),
    ToggleAlert,
    ToggleAudioVis,
    ToggleRainbow,
    SetRainbowSpeedUnits(u8),
    ToggleSecureStreamMembership,
}

impl View for Command {
    type V = CommandView;

    open spec fn view(&self) -> CommandView {
        match *self {
            Command::SetSparse { records } => CommandView::SetSparse { records: records@ },
            Command::SetSequential { pixels } => CommandView::SetSequential { pixels: pixels@ },
            Command::SetTimeout(t) => CommandView::SetTimeout(t),
            Command::ToggleAlert => CommandView::ToggleAlert,
            Command::ToggleAudioVis => CommandView::ToggleAudioVis,
            Command::ToggleRainbow => CommandView::ToggleRainbow,
            Command::SetRainbowSpeedUnits(n) => CommandView::SetRainbowSpeedUnits(n),
            Command::ToggleSecureStreamMembership => CommandView::ToggleSecureStreamMembership,
        }
    }
}

/// The commands of a list, each by its view.
pub open spec fn views(commands: Seq<Command>) -> Seq<CommandView> {
    Seq::new(commands.len(), |i: int| commands[i]@)
}

/// The bytes of `"warn"`.
pub open spec fn text_warn() -> Seq<u8> {
    seq![119u8, 97, 114, 110]
}

/// The bytes of `"hue"`.
pub open spec fn text_hue() -> Seq<u8> {
    seq![104u8, 117, 101]
}

/// The bytes of `"audvis"`.
pub open spec fn text_audvis() -> Seq<u8> {
    seq![97u8, 117, 100, 118, 105, 115]
}

/// The bytes of `"rainbow"`.
pub open spec fn text_rainbow() -> Seq<u8> {
    seq![114u8, 97, 105, 110, 98, 111, 119]
}

/// Whether a byte is an ASCII digit.
pub open spec fn is_digit(b: u8) -> bool {
    48 <= b <= 57
}

/// The records of a sparse payload: one for every four whole bytes. Bytes
/// that do not fill a record are left out.
pub open spec fn sparse_records(payload: Seq<u8>) -> Seq<SparseRecord> {
    Seq::new(
        payload.len() / 4,
        |i: int|
            SparseRecord {
                index: payload[4 * i],
                color: Rgb8 { r: payload[4 * i + 1], g: payload[4 * i + 2], b: payload[4 * i + 3] },
            },
    )
}

/// The colours of a sequential payload: one for every three whole bytes.
/// Bytes that do not fill a colour are left out.
pub open spec fn triples(payload: Seq<u8>) -> Seq<Rgb8> {
    Seq::new(
        payload.len() / 3,
        |i: int| Rgb8 { r: payload[3 * i], g: payload[3 * i + 1], b: payload[3 * i + 2] },
    )
}

/// What a datagram asks for, in order. A datagram of colours asks for its
/// timeout first; one that matches no form asks for nothing.
pub open spec fn decoded(d: Seq<u8>) -> Seq<CommandView> {
    if d.len() >= 2 && d[0] == MODE_SPARSE {
        seq![
            CommandView::SetTimeout(d[1]),
            CommandView::SetSparse { records: sparse_records(d.skip(2)) },
        ]
    } else if d.len() >= 2 && d[0] == MODE_SEQUENTIAL {
        seq![
            CommandView::SetTimeout(d[1]),
            CommandView::SetSequential { pixels: triples(d.skip(2)) },
        ]
    } else if d == text_warn() {
        seq![CommandView::ToggleAlert]
    } else if d == text_hue() {
        seq![CommandView::ToggleSecureStreamMembership]
    } else if d == text_audvis() {
        seq![CommandView::ToggleAudioVis]
    } else if d == text_rainbow() {
        seq![CommandView::ToggleRainbow]
    } else if d.len() == 2 && d[0] == 114 {
        seq![CommandView::SetRainbowSpeedUnits(d[1])]
    } else if d.len() == 3 && d[0] == 114 && is_digit(d[1]) && is_digit(d[2]) {
        seq![CommandView::SetRainbowSpeedUnits((10 * (d[1] - 48) + (d[2] - 48)) as u8)]
    } else {
        seq![]
    }
}

pub(crate) fn parse_sparse(payload: &[u8]) -> (records: Vec<SparseRecord>)
    ensures
        records@ == sparse_records(payload@),
{
    let n: usize = payload.len() / 4;
    let mut records: Vec<SparseRecord> = Vec::new();
    let mut i: usize = 0;
    while i < n
        invariant
            i <= n,
            n == payload.len() / 4,
            records.len() == i,
            forall|k: int| 0 <= k < i ==> records[k] == sparse_records(payload@)[k],
        decreases n - i,
    {
        records.push(
            SparseRecord {
                index: payload[4 * i],
                color: Rgb8 { r: payload[4 * i + 1], g: payload[4 * i + 2], b: payload[4 * i + 3] },
            },
        );
        i = i + 1;
    }
    assert(records@ =~= sparse_records(payload@));
    records
}

pub(crate) fn parse_triples(payload: &[u8]) -> (pixels: Vec<Rgb8>)
    ensures
        pixels@ == triples(payload@),
{
    let n: usize = payload.len() / 3;
    let mut pixels: Vec<Rgb8> = Vec::new();
    let mut i: usize = 0;
    while i < n
        invariant
            i <= n,
            n == payload.len() / 3,
            pixels.len() == i,
            forall|k: int| 0 <= k < i ==> pixels[k] == triples(payload@)[k],
        decreases n - i,
    {
        pixels.push(Rgb8 { r: payload[3 * i], g: payload[3 * i + 1], b: payload[3 * i + 2] });
        i = i + 1;
    }
    assert(pixels@ =~= triples(payload@));
    pixels
}

fn tail(d: &[u8]) -> (payload: Vec<u8>)
    requires
        d.len() >= 2,
    ensures
        payload@ == d@.skip(2),
{
    let mut payload: Vec<u8> = Vec::new();
    let mut i: usize = 2;
    while i < d.len()
        invariant
            2 <= i <= d.len(),
            payload.len() == i - 2,
            forall|k: int| 0 <= k < payload.len() ==> payload[k] == d[k + 2],
        decreases d.len() - i,
    {
        payload.push(d[i]);
        i = i + 1;
    }
    assert(payload@ =~= d@.skip(2));
    payload
}

fn is_text_warn(d: &[u8]) -> (b: bool)
    ensures
        b == (d@ == text_warn()),
{
    let b = d.len() == 4 && d[0] == 119 && d[1] == 97 && d[2] == 114 && d[3] == 110;
    assert(b ==> d@ =~= text_warn());
    b
}

fn is_text_hue(d: &[u8]) -> (b: bool)
    ensures
        b == (d@ == text_hue()),
{
    let b = d.len() == 3 && d[0] == 104 && d[1] == 117 && d[2] == 101;
    assert(b ==> d@ =~= text_hue());
    b
}

fn is_text_audvis(d: &[u8]) -> (b: bool)
    ensures
        b == (d@ == text_audvis()),
{
    let b = d.len() == 6 && d[0] == 97 && d[1] == 117 && d[2] == 100 && d[3] == 118 && d[4] == 105
        && d[5] == 115;
    assert(b ==> d@ =~= text_audvis());
    b
}

fn is_text_rainbow(d: &[u8]) -> (b: bool)
    ensures
        b == (d@ == text_rainbow()),
{
    let b = d.len() == 7 && d[0] == 114 && d[1] == 97 && d[2] == 105 && d[3] == 110 && d[4] == 98
        && d[5] == 111 && d[6] == 119;
    assert(b ==> d@ =~= text_rainbow());
    b
}

/// Decodes one datagram. Decoding cannot fail: what matches no form of the
/// protocol decodes to no command at all.
pub fn decode(d: &[u8]) -> (commands: Vec<Command>)
    ensures
        views(commands@) == decoded(d@),
{
    let mut commands: Vec<Command> = Vec::new();
    let n: usize = d.len();
    if n >= 2 && d[0] == MODE_SPARSE {
        let payload = tail(d);
        commands.push(Command::SetTimeout(d[1]));
        commands.push(Command::SetSparse { records: parse_sparse(payload.as_slice()) });
    } else if n >= 2 && d[0] == MODE_SEQUENTIAL {
        let payload = tail(d);
        commands.push(Command::SetTimeout(d[1]));
        commands.push(Command::SetSequential { pixels: parse_triples(payload.as_slice()) });
    } else if is_text_warn(d) {
        commands.push(Command::ToggleAlert);
    } else if is_text_hue(d) {
        commands.push(Command::ToggleSecureStreamMembership);
    } else if is_text_audvis(d) {
        commands.push(Command::ToggleAudioVis);
    } else if is_text_rainbow(d) {
        commands.push(Command::ToggleRainbow);
    } else if n == 2 && d[0] == 114 {
        commands.push(Command::SetRainbowSpeedUnits(d[1]));
    } else if n == 3 && d[0] == 114 && d[1] >= 48 && d[1] <= 57 && d[2] >= 48 && d[2] <= 57 {
        commands.push(Command::SetRainbowSpeedUnits(10 * (d[1] - 48) + (d[2] - 48)));
    }
    assert(views(commands@) =~= decoded(d@));
    commands
}

} // verus!
