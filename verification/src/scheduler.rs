//! The scheduling rules: which source of events is served next, and what
//! each event does to the strip. The loop around them waits and carries out
//! what they ask for.

use vstd::prelude::*;
use crate::color::Led;
use crate::effects::{
    all_dark, audvis_process, audvis_tick, fade, fade_ticks, faded_all, idle_faded,
    idle_faded_after, lemma_idle_fade_reaches_dark, lemma_idle_fade_stays_dark, lemma_idle_tick,
    next_gain, none_above, sample, scrolled, with_sample,
    ALERT_FADE_DEN, ALERT_FADE_NUM, ALERT_FLOOR, AVFACT_MIN, FULL_SCALE, IDLE_FADE_DEN,
    IDLE_FADE_NUM, IDLE_FLOOR,
};
use crate::protocol::{
    decode, decoded, sparse_records, triples, views, Command, CommandView, MODE_SEQUENTIAL,
    MODE_SPARSE,
};
use crate::strip::{
    frame_of, sequential_applied, sparse_applied, touches, Frame, FrameView, Strip,
    RAINBOW_DEFAULT, RAINBOW_UNIT,
};
use crate::strip_transport::{
    lemma_without_hub_clean, lemma_without_hub_keeps, without_hub, StripTransport,
};

verus! {

/// The seconds that the longest idle timeout lasts: a day.
pub const TIMEOUT_DISABLED: u32 = 86400;

/// The timeout byte that stands for the longest timeout.
pub const TIMEOUT_MAX: u8 = 255;

/// What the scheduler is doing.
#[derive(Clone, Copy, Debug, PartialEq, Eq, Structural)]
pub enum Mode {
    /// Commands are served.
    Normal,
    /// The alert has taken the strip over.
    Alert,
}

/// The sources of events, in the order in which they are served.
#[derive(Clone, Copy, Debug, PartialEq, Eq, Structural)]
pub enum Source {
    ForcedRefresh,
    Flush,
    Effect,
    Socket,
    IdleDeadline,
}

/// One flag for each source.
#[derive(Clone, Copy, Debug, PartialEq, Eq, Structural)]
pub struct Sources {
    pub forced_refresh: bool,
    pub flush: bool,
    pub effect: bool,
    pub socket: bool,
    pub idle_deadline: bool,
}

/// What has happened.
#[derive(Debug)]
pub enum Event {
    /// The forced-refresh timer fired.
    ForcedRefresh,
    /// The flush timer fired.
    FlushTick,
    /// The effect timer fired.
    EffectTick,
    /// A datagram arrived.
    Datagram(Vec<u8>),
    /// The idle deadline passed.
    IdleDeadline,
}

/// What the loop is to do after an event.
#[derive(Debug, PartialEq, Eq)]
pub struct Reaction {
    /// Deliver this frame to the sink.
    pub flush: Option<Frame>,
    /// Set the idle deadline to this many seconds from now.
    pub rearm: Option<u32>,
    /// Start the effect timer's period anew.
    pub restart_effects: bool,
    /// Establish the hub sink and attach it.
    pub connect_hub: bool,
}

/// A reaction with its frame as sequences.
pub struct ReactionView {
    pub flush: Option<FrameView>,
    pub rearm: Option<u32>,
    pub restart_effects: bool,
    pub connect_hub: bool,
}

impl View for Reaction {
    type V = ReactionView;

    open spec fn view(&self) -> ReactionView {
        ReactionView {
            flush: match self.flush {
                Some(frame) => Some(frame@),
                None => None,
            },
            rearm: self.rearm,
            restart_effects: self.restart_effects,
            connect_hub: self.connect_hub,
        }
    }
}

/// The scheduler: the strip and the state of its effects.
#[derive(Debug)]
pub struct Scheduler {
    pub strip: Strip,
    pub mode: Mode,
    /// Whether the idle deadline has passed and the strip is fading.
    pub fading: bool,
    /// Whether the audio visualisation is on.
    pub audvis: bool,
    /// The colours of the audio visualisation.
    pub avleds: Vec<Led>,
    /// The gain of the audio visualisation, in thousandths.
    pub avfact: u32,
}

/// What the rules read and write of a scheduler. Of the sink they read
/// only whether it is a composite, and whether one with a hub sink in it.
pub struct State {
    pub leds: Seq<Led>,
    pub pending: bool,
    pub rainbow: u32,
    pub mode: Mode,
    pub fading: bool,
    pub audvis: bool,
    pub avleds: Seq<Led>,
    pub avfact: u32,
    pub composite: bool,
    pub hub: bool,
}

impl View for Scheduler {
    type V = State;

    open spec fn view(&self) -> State {
        State {
            leds: self.strip.leds@,
            pending: self.strip.pending,
            rainbow: self.strip.rainbow,
            mode: self.mode,
            fading: self.fading,
            audvis: self.audvis,
            avleds: self.avleds@,
            avfact: self.avfact,
            composite: self.strip.stream is Composite,
            hub: self.strip.stream.has_hub_child(),
        }
    }
}

/// The reaction that asks for nothing.
pub open spec fn quiet() -> ReactionView {
    ReactionView { flush: None, rearm: None, restart_effects: false, connect_hub: false }
}

/// The seconds that a timeout byte stands for.
pub open spec fn timeout_seconds(t: u8) -> u32 {
    if t == TIMEOUT_MAX {
        TIMEOUT_DISABLED
    } else {
        t as u32
    }
}

/// The alert's colour: blue at full scale.
pub open spec fn alert_color() -> Led {
    Led { r: 0, g: 0, b: FULL_SCALE }
}

/// A strip of `len` positions in the alert's colour.
pub open spec fn alert_painted(len: nat) -> Seq<Led> {
    Seq::new(len, |j: int| alert_color())
}

/// Whether some pixel has a channel at or above `floor`.
pub open spec fn some_reach(leds: Seq<Led>, floor: u32) -> bool {
    exists|j: int| 0 <= j < leds.len() && (#[trigger] leds[j]).reaches(floor)
}

/// The sources that are served in a state. During an alert only the flush
/// and the effect timer are; the flush timer is served while the strip is
/// due for a flush, the effect timer while an effect runs, and the idle
/// deadline until it has passed.
pub open spec fn served(s: State) -> Sources {
    match s.mode {
        Mode::Normal => Sources {
            forced_refresh: true,
            flush: s.pending,
            effect: s.audvis || s.fading,
            socket: true,
            idle_deadline: !s.fading,
        },
        Mode::Alert => Sources {
            forced_refresh: false,
            flush: s.pending,
            effect: true,
            socket: false,
            idle_deadline: false,
        },
    }
}

/// The source to serve: the first, in the fixed order, that is both served
/// and ready.
pub open spec fn first_ready(served: Sources, ready: Sources) -> Option<Source> {
    if served.forced_refresh && ready.forced_refresh {
        Some(Source::ForcedRefresh)
    } else if served.flush && ready.flush {
        Some(Source::Flush)
    } else if served.effect && ready.effect {
        Some(Source::Effect)
    } else if served.socket && ready.socket {
        Some(Source::Socket)
    } else if served.idle_deadline && ready.idle_deadline {
        Some(Source::IdleDeadline)
    } else {
        None
    }
}

/// The forced refresh: the strip is due for a flush, changed or not.
pub open spec fn after_forced_refresh(s: State) -> (State, ReactionView) {
    match s.mode {
        Mode::Normal => (State { pending: true, ..s }, quiet()),
        Mode::Alert => (s, quiet()),
    }
}

/// The flush tick: a strip that is due is flushed.
pub open spec fn after_flush_tick(s: State) -> (State, ReactionView) {
    if s.pending {
        (
            State { pending: false, ..s },
            ReactionView { flush: Some(frame_of(s.leds, s.rainbow)), ..quiet() },
        )
    } else {
        (s, quiet())
    }
}

/// The effect tick. During an alert the strip fades at the alert's rate and
/// is flushed; once no pixel reaches the alert's floor the alert is over.
/// Otherwise the audio visualisation, if it is on, scrolls and shows on the
/// strip; if it is off and the strip is fading, the strip fades at the idle
/// rate, and the tick that changes nothing ends the fade: the idle deadline
/// is set to the longest timeout.
pub open spec fn after_effect_tick(s: State) -> (State, ReactionView) {
    match s.mode {
        Mode::Alert => {
            let leds = faded_all(s.leds, ALERT_FLOOR, ALERT_FADE_NUM, ALERT_FADE_DEN);
            let due = s.pending || leds != s.leds;
            (
                State {
                    leds,
                    pending: false,
                    mode: if some_reach(leds, ALERT_FLOOR) {
                        Mode::Alert
                    } else {
                        Mode::Normal
                    },
                    ..s
                },
                ReactionView {
                    flush: if due {
                        Some(frame_of(leds, s.rainbow))
                    } else {
                        None
                    },
                    ..quiet()
                },
            )
        },
        Mode::Normal => {
            if s.audvis {
                let avleds = scrolled(s.avleds);
                (State { leds: avleds, pending: s.pending || avleds != s.leds, avleds, ..s }, quiet())
            } else if s.fading {
                let leds = faded_all(s.leds, IDLE_FLOOR, IDLE_FADE_NUM, IDLE_FADE_DEN);
                if leds != s.leds {
                    (State { leds, pending: true, ..s }, quiet())
                } else {
                    (
                        State { fading: false, avleds: s.leds, ..s },
                        ReactionView { rearm: Some(TIMEOUT_DISABLED), ..quiet() },
                    )
                }
            } else {
                (s, quiet())
            }
        },
    }
}

/// The idle deadline: the strip starts to fade.
pub open spec fn after_idle_deadline(s: State) -> (State, ReactionView) {
    match s.mode {
        Mode::Normal => (State { fading: true, ..s }, quiet()),
        Mode::Alert => (s, quiet()),
    }
}

/// After new colours have arrived while the audio visualisation is on: the
/// sample is derived from them, the visualisation scrolls one step and
/// shows on the strip at once, and the effect timer starts anew.
pub open spec fn with_visualisation(s: State) -> (State, ReactionView) {
    if s.audvis {
        let avleds = scrolled(with_sample(s.leds, s.avleds, s.avfact));
        (
            State {
                leds: avleds,
                pending: true,
                avleds,
                avfact: next_gain(s.avfact, sample(s.leds, s.avfact).peak()),
                ..s
            },
            ReactionView { restart_effects: true, ..quiet() },
        )
    } else {
        (s, quiet())
    }
}

/// What a command does.
pub open spec fn after_command(s: State, c: CommandView) -> (State, ReactionView) {
    match c {
        CommandView::SetTimeout(t) => (
            State { fading: false, ..s },
            ReactionView { rearm: Some(timeout_seconds(t)), ..quiet() },
        ),
        CommandView::SetSparse { records } => with_visualisation(
            State {
                leds: sparse_applied(s.leds, records),
                pending: s.pending || touches(records, s.leds.len() as int),
                ..s
            },
        ),
        CommandView::SetSequential { pixels } => with_visualisation(
            State { leds: sequential_applied(s.leds, pixels), pending: true, ..s },
        ),
        CommandView::ToggleAlert => (
            State { leds: alert_painted(s.leds.len()), pending: true, mode: Mode::Alert, ..s },
            quiet(),
        ),
        CommandView::ToggleAudioVis => (
            State {
                audvis: !s.audvis,
                avfact: if !s.audvis {
                    AVFACT_MIN
                } else {
                    s.avfact
                },
                ..s
            },
            quiet(),
        ),
        CommandView::ToggleRainbow => (
            State {
                rainbow: if s.rainbow > 0 {
                    0
                } else {
                    RAINBOW_DEFAULT
                },
                ..s
            },
            quiet(),
        ),
        CommandView::SetRainbowSpeedUnits(n) => (
            State { rainbow: (RAINBOW_UNIT * n) as u32, ..s },
            quiet(),
        ),
        CommandView::ToggleSecureStreamMembership => if s.composite && s.hub {
            (State { hub: false, ..s }, quiet())
        } else if s.composite {
            (s, ReactionView { connect_hub: true, ..quiet() })
        } else {
            (s, quiet())
        },
    }
}

/// Two reactions as one: what the later one asks for stands, and what only
/// the earlier one asks for stands too.
pub open spec fn merged(a: ReactionView, b: ReactionView) -> ReactionView {
    ReactionView {
        flush: if b.flush is Some {
            b.flush
        } else {
            a.flush
        },
        rearm: if b.rearm is Some {
            b.rearm
        } else {
            a.rearm
        },
        restart_effects: a.restart_effects || b.restart_effects,
        connect_hub: a.connect_hub || b.connect_hub,
    }
}

/// What a list of commands does, one after the other.
pub open spec fn after_commands(s: State, commands: Seq<CommandView>) -> (State, ReactionView)
    decreases commands.len(),
{
    if commands.len() == 0 {
        (s, quiet())
    } else {
        let (mid, earlier) = after_commands(s, commands.drop_last());
        let (end, last) = after_command(mid, commands.last());
        (end, merged(earlier, last))
    }
}

/// A datagram: its commands are carried out in order. During an alert it
/// is not even looked at.
pub open spec fn after_datagram(s: State, d: Seq<u8>) -> (State, ReactionView) {
    match s.mode {
        Mode::Normal => after_commands(s, decoded(d)),
        Mode::Alert => (s, quiet()),
    }
}

/// Whether some command of the list lets the hub sink join or leave.
pub open spec fn toggles_hub(commands: Seq<CommandView>) -> bool {
    exists|k: int|
        0 <= k < commands.len() && #[trigger] commands[k] is ToggleSecureStreamMembership
}

/// What commands do to the sink: where one of them lets the hub sink join
/// or leave, a composite loses its hub sinks, if it has any, and keeps its
/// other children in their order. Anything else leaves the sink as it is.
pub open spec fn sink_after(before: StripTransport, after: StripTransport, toggled: bool) -> bool {
    if toggled {
        match before {
            StripTransport::Composite(children) => after matches StripTransport::Composite(kept)
                && kept@ == without_hub(children@),
            _ => after == before,
        }
    } else {
        after == before
    }
}

fn copy_of(leds: &Vec<Led>) -> (out: Vec<Led>)
    ensures
        out@ == leds@,
{
    let mut out: Vec<Led> = Vec::new();
    let mut i: usize = 0;
    while i < leds.len()
        invariant
            i <= leds@.len(),
            out@ == leds@.take(i as int),
        decreases leds@.len() - i,
    {
        out.push(leds[i]);
        i = i + 1;
    }
    assert(leds@.take(i as int) =~= leds@);
    out
}

fn same(a: &Vec<Led>, b: &Vec<Led>) -> (eq: bool)
    ensures
        eq == (a@ == b@),
{
    if a.len() != b.len() {
        return false;
    }
    let mut i: usize = 0;
    while i < a.len()
        invariant
            i <= a@.len(),
            a@.len() == b@.len(),
            forall|j: int| 0 <= j < i ==> a@[j] == b@[j],
        decreases a@.len() - i,
    {
        if a[i] != b[i] {
            return false;
        }
        i = i + 1;
    }
    assert(a@ =~= b@);
    true
}

fn any_reaches(leds: &Vec<Led>, floor: u32) -> (b: bool)
    ensures
        b == some_reach(leds@, floor),
{
    let mut i: usize = 0;
    while i < leds.len()
        invariant
            i <= leds@.len(),
            forall|j: int| 0 <= j < i ==> !(#[trigger] leds@[j]).reaches(floor),
        decreases leds@.len() - i,
    {
        if leds[i].peak_channel() >= floor {
            assert(leds@[i as int].reaches(floor));
            return true;
        }
        i = i + 1;
    }
    false
}

fn paint_alert(leds: &mut Vec<Led>)
    ensures
        final(leds)@ == alert_painted(old(leds)@.len()),
{
    let mut i: usize = 0;
    while i < leds.len()
        invariant
            i <= leds@.len(),
            leds@.len() == old(leds)@.len(),
            forall|j: int| 0 <= j < i ==> leds@[j] == alert_color(),
        decreases leds@.len() - i,
    {
        leds[i] = Led { r: 0, g: 0, b: FULL_SCALE };
        i = i + 1;
    }
    assert(leds@ =~= alert_painted(old(leds)@.len()));
}

fn nothing() -> (r: Reaction)
    ensures
        r@ == quiet(),
{
    Reaction { flush: None, rearm: None, restart_effects: false, connect_hub: false }
}

fn merge(a: Reaction, b: Reaction) -> (r: Reaction)
    ensures
        r@ == merged(a@, b@),
{
    Reaction {
        flush: if b.flush.is_some() {
            b.flush
        } else {
            a.flush
        },
        rearm: if b.rearm.is_some() {
            b.rearm
        } else {
            a.rearm
        },
        restart_effects: a.restart_effects || b.restart_effects,
        connect_hub: a.connect_hub || b.connect_hub,
    }
}

/// The seconds from now at which the idle deadline is due for a timeout
/// byte: as many as it says, or a day for the byte that stands for the
/// longest timeout.
pub fn update_timeout(duration_secs: u8) -> (secs: u32)
    ensures
        secs == timeout_seconds(duration_secs),
{
    if duration_secs == TIMEOUT_MAX {
        TIMEOUT_DISABLED
    } else {
        duration_secs as u32
    }
}

/// Picks the source to serve among those that are ready.
pub fn arbitrate(served: Sources, ready: Sources) -> (next: Option<Source>)
    ensures
        next == first_ready(served, ready),
{
    if served.forced_refresh && ready.forced_refresh {
        Some(Source::ForcedRefresh)
    } else if served.flush && ready.flush {
        Some(Source::Flush)
    } else if served.effect && ready.effect {
        Some(Source::Effect)
    } else if served.socket && ready.socket {
        Some(Source::Socket)
    } else if served.idle_deadline && ready.idle_deadline {
        Some(Source::IdleDeadline)
    } else {
        None
    }
}

impl Scheduler {
    /// The visualisation has one colour for each position of the strip.
    pub open spec fn wf(self) -> bool {
        self.avleds@.len() == self.strip.leds@.len()
    }

    /// A scheduler for a dark strip of `leds` positions in front of
    /// `stream`: serving commands, with no effect running.
    pub fn new(stream: StripTransport, leds: usize) -> (s: Scheduler)
        ensures
            s.wf(),
            s.strip.stream == stream,
            s@.leds.len() == leds,
            forall|j: int| 0 <= j < leds ==> s@.leds[j] == Led::black(),
            s@.avleds == s@.leds,
            !s@.pending,
            s@.rainbow == 0,
            s@.mode == Mode::Normal,
            !s@.fading,
            !s@.audvis,
            s@.avfact == 0,
    {
        let strip = Strip::new(stream, leds);
        let avleds = copy_of(&strip.leds);
        Scheduler { strip, mode: Mode::Normal, fading: false, audvis: false, avleds, avfact: 0 }
    }

    /// The sources that the loop is to wait for.
    pub fn subscriptions(&self) -> (subs: Sources)
        ensures
            subs == served(self@),
    {
        match self.mode {
            Mode::Normal => Sources {
                forced_refresh: true,
                flush: self.strip.pending,
                effect: self.audvis || self.fading,
                socket: true,
                idle_deadline: !self.fading,
            },
            Mode::Alert => Sources {
                forced_refresh: false,
                flush: self.strip.pending,
                effect: true,
                socket: false,
                idle_deadline: false,
            },
        }
    }

    /// Serves the forced-refresh timer.
    pub fn on_forced_refresh(&mut self) -> (r: Reaction)
        ensures
            (final(self)@, r@) == after_forced_refresh(old(self)@),
            final(self).strip.stream == old(self).strip.stream,
            old(self).wf() ==> final(self).wf(),
    {
        match self.mode {
            Mode::Normal => {
                self.strip.pending = true;
            },
            Mode::Alert => {},
        }
        nothing()
    }

    /// Serves the flush timer.
    pub fn on_flush_tick(&mut self) -> (r: Reaction)
        ensures
            (final(self)@, r@) == after_flush_tick(old(self)@),
            final(self).strip.leds == old(self).strip.leds,
            final(self).strip.stream == old(self).strip.stream,
            old(self).wf() ==> final(self).wf(),
    {
        if self.strip.pending {
            let frame = self.strip.write();
            Reaction { flush: Some(frame), rearm: None, restart_effects: false, connect_hub: false }
        } else {
            nothing()
        }
    }

    /// Serves the effect timer.
    pub fn on_effect_tick(&mut self) -> (r: Reaction)
        requires
            old(self).wf(),
        ensures
            (final(self)@, r@) == after_effect_tick(old(self)@),
            final(self).strip.stream == old(self).strip.stream,
            final(self).wf(),
    {
        match self.mode {
            Mode::Alert => {
                let changed = fade(&mut self.strip.leds, ALERT_FLOOR, ALERT_FADE_NUM, ALERT_FADE_DEN);
                let due = self.strip.pending || changed;
                if !any_reaches(&self.strip.leds, ALERT_FLOOR) {
                    self.mode = Mode::Normal;
                }
                if due {
                    let frame = self.strip.write();
                    Reaction {
                        flush: Some(frame),
                        rearm: None,
                        restart_effects: false,
                        connect_hub: false,
                    }
                } else {
                    nothing()
                }
            },
            Mode::Normal => {
                if self.audvis {
                    audvis_tick(&mut self.avleds);
                    if !same(&self.strip.leds, &self.avleds) {
                        self.strip.leds = copy_of(&self.avleds);
                        self.strip.pending = true;
                    }
                    nothing()
                } else if self.fading {
                    let changed = fade(
                        &mut self.strip.leds,
                        IDLE_FLOOR,
                        IDLE_FADE_NUM,
                        IDLE_FADE_DEN,
                    );
                    if changed {
                        self.strip.pending = true;
                        nothing()
                    } else {
                        self.fading = false;
                        self.avleds = copy_of(&self.strip.leds);
                        Reaction {
                            flush: None,
                            rearm: Some(TIMEOUT_DISABLED),
                            restart_effects: false,
                            connect_hub: false,
                        }
                    }
                } else {
                    nothing()
                }
            },
        }
    }

    /// Serves the idle deadline.
    pub fn on_idle_deadline(&mut self) -> (r: Reaction)
        ensures
            (final(self)@, r@) == after_idle_deadline(old(self)@),
            final(self).strip.stream == old(self).strip.stream,
            old(self).wf() ==> final(self).wf(),
    {
        match self.mode {
            Mode::Normal => {
                self.fading = true;
            },
            Mode::Alert => {},
        }
        nothing()
    }

    fn visualise(&mut self) -> (r: Reaction)
        requires
            old(self).wf(),
        ensures
            (final(self)@, r@) == with_visualisation(old(self)@),
            final(self).strip.stream == old(self).strip.stream,
            final(self).wf(),
    {
        if self.audvis {
            audvis_process(self.strip.leds.as_slice(), &mut self.avleds, &mut self.avfact);
            audvis_tick(&mut self.avleds);
            self.strip.leds = copy_of(&self.avleds);
            self.strip.pending = true;
            Reaction { flush: None, rearm: None, restart_effects: true, connect_hub: false }
        } else {
            nothing()
        }
    }

    /// Carries out one command.
    pub fn apply(&mut self, command: &Command) -> (r: Reaction)
        requires
            old(self).wf(),
        ensures
            (final(self)@, r@) == after_command(old(self)@, command@),
            sink_after(
                old(self).strip.stream,
                final(self).strip.stream,
                command@ is ToggleSecureStreamMembership,
            ),
            final(self).wf(),
    {
        match command {
            Command::SetTimeout(t) => {
                self.fading = false;
                Reaction {
                    flush: None,
                    rearm: Some(update_timeout(*t)),
                    restart_effects: false,
                    connect_hub: false,
                }
            },
            Command::SetSparse { records } => {
                self.strip.apply_sparse(records.as_slice());
                self.visualise()
            },
            Command::SetSequential { pixels } => {
                self.strip.apply_sequential(pixels.as_slice());
                self.visualise()
            },
            Command::ToggleAlert => {
                paint_alert(&mut self.strip.leds);
                self.strip.pending = true;
                self.mode = Mode::Alert;
                nothing()
            },
            Command::ToggleAudioVis => {
                self.audvis = !self.audvis;
                if self.audvis {
                    self.avfact = AVFACT_MIN;
                }
                nothing()
            },
            Command::ToggleRainbow => {
                if self.strip.rainbow > 0 {
                    self.strip.rainbow = 0;
                } else {
                    self.strip.rainbow = RAINBOW_DEFAULT;
                }
                nothing()
            },
            Command::SetRainbowSpeedUnits(n) => {
                self.strip.rainbow = RAINBOW_UNIT * (*n as u32);
                nothing()
            },
            Command::ToggleSecureStreamMembership => {
                let hub = self.strip.stream.has_hue();
                proof {
                    if self.strip.stream is Composite && !hub {
                        lemma_without_hub_keeps(self.strip.stream->Composite_0@);
                    }
                }
                if hub {
                    self.strip.stream.remove_hue();
                    nothing()
                } else {
                    match self.strip.stream {
                        StripTransport::Composite(_) => Reaction {
                            flush: None,
                            rearm: None,
                            restart_effects: false,
                            connect_hub: true,
                        },
                        _ => nothing(),
                    }
                }
            },
        }
    }

    /// Serves the socket: decodes one datagram and carries out what it asks
    /// for.
    pub fn on_datagram(&mut self, d: &[u8]) -> (r: Reaction)
        requires
            old(self).wf(),
        ensures
            (final(self)@, r@) == after_datagram(old(self)@, d@),
            sink_after(
                old(self).strip.stream,
                final(self).strip.stream,
                old(self)@.mode == Mode::Normal && toggles_hub(decoded(d@)),
            ),
            final(self).wf(),
    {
        let mut reaction = nothing();
        match self.mode {
            Mode::Alert => {},
            Mode::Normal => {
                let commands = decode(d);
                let ghost all = views(commands@);
                let mut i: usize = 0;
                assert(all.take(0) =~= Seq::<CommandView>::empty());
                while i < commands.len()
                    invariant
                        i <= commands@.len(),
                        all == views(commands@),
                        all.len() == commands@.len(),
                        self.wf(),
                        (self@, reaction@) == after_commands(old(self)@, all.take(i as int)),
                        sink_after(
                            old(self).strip.stream,
                            self.strip.stream,
                            toggles_hub(all.take(i as int)),
                        ),
                    decreases commands@.len() - i,
                {
                    let ghost sooner = all.take(i as int);
                    let ghost later = all.take(i + 1);
                    let ghost mid = self.strip.stream;
                    proof {
                        assert(later.drop_last() =~= sooner);
                        assert(later.last() == commands@[i as int]@);
                    }
                    let r = self.apply(&commands[i]);
                    reaction = merge(reaction, r);
                    proof {
                        lemma_sink_steps(
                            old(self).strip.stream,
                            mid,
                            self.strip.stream,
                            sooner,
                            later,
                        );
                    }
                    i = i + 1;
                }
                assert(all.take(i as int) =~= all);
            },
        }
        reaction
    }

    /// Serves one event.
    pub fn step(&mut self, event: &Event) -> (r: Reaction)
        requires
            old(self).wf(),
        ensures
            (final(self)@, r@) == after_event(old(self)@, *event),
            sink_after(
                old(self).strip.stream,
                final(self).strip.stream,
                old(self)@.mode == Mode::Normal && (*event matches Event::Datagram(d)
                    && toggles_hub(decoded(d@))),
            ),
            final(self).wf(),
    {
        match event {
            Event::ForcedRefresh => self.on_forced_refresh(),
            Event::FlushTick => self.on_flush_tick(),
            Event::EffectTick => self.on_effect_tick(),
            Event::Datagram(d) => self.on_datagram(d.as_slice()),
            Event::IdleDeadline => self.on_idle_deadline(),
        }
    }
}

/// What an event does.
pub open spec fn after_event(s: State, event: Event) -> (State, ReactionView) {
    match event {
        Event::ForcedRefresh => after_forced_refresh(s),
        Event::FlushTick => after_flush_tick(s),
        Event::EffectTick => after_effect_tick(s),
        Event::Datagram(d) => after_datagram(s, d@),
        Event::IdleDeadline => after_idle_deadline(s),
    }
}

proof fn lemma_sink_steps(
    start: StripTransport,
    mid: StripTransport,
    end: StripTransport,
    sooner: Seq<CommandView>,
    later: Seq<CommandView>,
)
    requires
        later.len() == sooner.len() + 1,
        later.drop_last() == sooner,
        sink_after(start, mid, toggles_hub(sooner)),
        sink_after(mid, end, later.last() is ToggleSecureStreamMembership),
    ensures
        sink_after(start, end, toggles_hub(later)),
{
    if toggles_hub(sooner) {
        let k = choose|k: int|
            0 <= k < sooner.len() && #[trigger] sooner[k] is ToggleSecureStreamMembership;
        assert(later[k] == sooner[k]);
    }
    if later.last() is ToggleSecureStreamMembership {
        assert(later[later.len() - 1] is ToggleSecureStreamMembership);
    }
    if toggles_hub(later) && !(later.last() is ToggleSecureStreamMembership) {
        let k = choose|k: int|
            0 <= k < later.len() && #[trigger] later[k] is ToggleSecureStreamMembership;
        assert(sooner[k] == later[k]);
    }
    if toggles_hub(sooner) && later.last() is ToggleSecureStreamMembership {
        if start is Composite {
            lemma_without_hub_clean(start->Composite_0@);
            lemma_without_hub_keeps(without_hub(start->Composite_0@));
        }
    }
}

/// What a datagram of colours does while commands are served: it ends an
/// idle fade and sets the idle deadline to its timeout, the colours are
/// applied, and the visualisation, if it is on, takes them up at once.
pub proof fn lemma_colour_datagram(s: State, d: Seq<u8>)
    requires
        s.mode == Mode::Normal,
        d.len() >= 2,
        d[0] == MODE_SPARSE || d[0] == MODE_SEQUENTIAL,
    ensures
        ({
            let awake = State { fading: false, ..s };
            let updated = if d[0] == MODE_SPARSE {
                State {
                    leds: sparse_applied(s.leds, sparse_records(d.skip(2))),
                    pending: s.pending || touches(sparse_records(d.skip(2)), s.leds.len() as int),
                    ..awake
                }
            } else {
                State { leds: sequential_applied(s.leds, triples(d.skip(2))), pending: true, ..awake }
            };
            let shown = with_visualisation(updated);
            after_datagram(s, d) == (
                shown.0,
                ReactionView { rearm: Some(timeout_seconds(d[1])), ..shown.1 },
            )
        }),
{
    reveal_with_fuel(after_commands, 3);
    let commands = decoded(d);
    assert(commands.len() == 2);
    assert(commands.drop_last().len() == 1);
    assert(commands.drop_last().drop_last().len() == 0);
    assert(commands.drop_last().last() == CommandView::SetTimeout(d[1]));
    let first = after_command(s, CommandView::SetTimeout(d[1]));
    assert(after_commands(s, commands.drop_last()) == (first.0, merged(quiet(), first.1)));
}

/// The effect tick `ticks` times over.
pub open spec fn after_effect_ticks(s: State, ticks: nat) -> State
    decreases ticks,
{
    if ticks == 0 {
        s
    } else {
        after_effect_ticks(after_effect_tick(s).0, (ticks - 1) as nat)
    }
}

proof fn lemma_effect_ticks_at_rest(s: State, ticks: nat)
    requires
        s.mode == Mode::Normal,
        !s.audvis,
        !s.fading,
    ensures
        after_effect_ticks(s, ticks) == s,
    decreases ticks,
{
    if ticks > 0 {
        lemma_effect_ticks_at_rest(s, (ticks - 1) as nat);
    }
}

/// While the strip is fading with no alert and no visualisation running,
/// the effect ticks are the ticks of the idle fade, up to the tick that
/// finds the strip dark and ends the fade.
proof fn lemma_fading_ticks(s: State, ticks: nat)
    requires
        s.mode == Mode::Normal,
        !s.audvis,
        s.fading,
    ensures
        after_effect_ticks(s, ticks).leds == idle_faded_after(s.leds, ticks),
        after_effect_ticks(s, ticks).mode == Mode::Normal,
        !after_effect_ticks(s, ticks).audvis,
        after_effect_ticks(s, ticks).fading ==> !all_dark(
            idle_faded_after(s.leds, (ticks - 1) as nat),
        ) || ticks == 0,
    decreases ticks,
{
    if ticks > 0 {
        let next = after_effect_tick(s).0;
        assert(none_above(s.leds, u32::MAX as int));
        lemma_idle_tick(s.leds, u32::MAX as int);
        if idle_faded(s.leds) != s.leds {
            lemma_fading_ticks(next, (ticks - 1) as nat);
            if ticks > 1 {
                assert(idle_faded_after(s.leds, (ticks - 1) as nat) == idle_faded_after(
                    next.leds,
                    (ticks - 2) as nat,
                ));
            }
        } else {
            lemma_effect_ticks_at_rest(next, (ticks - 1) as nat);
            lemma_idle_fade_stays_dark(s.leds, ticks);
        }
    }
}

/// The idle fade ends. Once the idle deadline has passed, with no alert
/// and no visualisation running and no datagram coming in, the effect
/// ticks bring every pixel to dark and then end the fade: with `bound` the
/// brightest channel or more, one tick more than `fade_ticks(bound)` is
/// enough, and more ticks change nothing.
pub proof fn lemma_idle_fade_ends(s: State, bound: nat, ticks: nat)
    requires
        s.mode == Mode::Normal,
        !s.audvis,
        s.fading,
        none_above(s.leds, bound as int),
        ticks > fade_ticks(bound),
    ensures
        all_dark(after_effect_ticks(s, ticks).leds),
        after_effect_ticks(s, ticks).leds.len() == s.leds.len(),
        !after_effect_ticks(s, ticks).fading,
        after_effect_ticks(s, ticks).mode == Mode::Normal,
{
    lemma_fading_ticks(s, ticks);
    lemma_idle_fade_reaches_dark(s.leds, bound, ticks);
    lemma_idle_fade_reaches_dark(s.leds, bound, (ticks - 1) as nat);
}

/// A flush never changes the stored colours, with the rainbow on or off:
/// two flushes in a row, each forced by the refresh timer and with no
/// command between them, deliver the same frame, made from the same
/// colours.
pub proof fn lemma_flushes_repeat(s: State)
    requires
        s.mode == Mode::Normal,
    ensures
        ({
            let first = after_flush_tick(after_forced_refresh(s).0);
            let second = after_flush_tick(after_forced_refresh(first.0).0);
            &&& first.1.flush == Some(frame_of(s.leds, s.rainbow))
            &&& second.1.flush == first.1.flush
            &&& first.0.leds == s.leds
            &&& second.0.leds == s.leds
            &&& second.0.rainbow == s.rainbow
        }),
{
}

} // verus!
