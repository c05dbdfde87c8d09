use ledstrip::color::{Led, Rgb8};
use ledstrip::protocol::Command;
use ledstrip::scheduler::{arbitrate, update_timeout, Event, Mode, Reaction, Scheduler, Source, Sources};
use ledstrip::strip::Frame;
use ledstrip::strip_transport::StripTransport;

fn led(r: u32, g: u32, b: u32) -> Led {
    Led { r, g, b }
}

fn grey(v: u8) -> Rgb8 {
    Rgb8 { r: v, g: v, b: v }
}

fn quiet() -> Reaction {
    Reaction { flush: None, rearm: None, restart_effects: false, connect_hub: false }
}

fn scheduler(leds: usize) -> Scheduler {
    Scheduler::new(StripTransport::composite(vec![StripTransport::ws2812()]), leds)
}

fn sources(forced_refresh: bool, flush: bool, effect: bool, socket: bool, idle_deadline: bool) -> Sources {
    Sources { forced_refresh, flush, effect, socket, idle_deadline }
}

#[test]
fn a_new_scheduler_serves_commands_on_a_dark_strip() {
    let s = scheduler(3);
    assert_eq!(s.strip.leds, vec![led(0, 0, 0); 3]);
    assert_eq!(s.avleds, vec![led(0, 0, 0); 3]);
    assert_eq!(s.mode, Mode::Normal);
    assert!(!s.fading && !s.audvis && !s.strip.pending);
    assert_eq!(s.subscriptions(), sources(true, false, false, true, true));
}

#[test]
fn sparse_scenario() {
    let mut s = scheduler(3);
    let r = s.on_datagram(&[1, 255, 0, 255, 0, 0]);
    assert_eq!(s.strip.leds, vec![led(255_000, 0, 0), led(0, 0, 0), led(0, 0, 0)]);
    assert_eq!(r, Reaction { rearm: Some(86_400), ..quiet() });
    assert!(s.strip.pending);
}

#[test]
fn sparse_datagram_with_the_middle_channel_set_is_green() {
    let mut s = scheduler(3);
    let r = s.on_datagram(&[1, 255, 0, 0, 255, 0]);
    assert_eq!(s.strip.leds, vec![led(0, 255_000, 0), led(0, 0, 0), led(0, 0, 0)]);
    assert_eq!(r, Reaction { rearm: Some(86_400), ..quiet() });
}

#[test]
fn sequential_scenario() {
    let mut s = scheduler(3);
    let r = s.step(&Event::Datagram(vec![2, 10, 255, 255, 255]));
    assert_eq!(s.strip.leds, vec![led(255_000, 255_000, 255_000), led(0, 0, 0), led(0, 0, 0)]);
    assert_eq!(r, Reaction { rearm: Some(10), ..quiet() });
    assert!(s.strip.pending);
}

#[test]
fn rainbow_scenario() {
    let mut s = scheduler(3);
    s.on_datagram(&[2, 10, 9, 8, 7]);
    assert_eq!(s.on_datagram(b"rainbow"), quiet());
    assert_eq!(s.strip.rainbow, 270);
    let stored = s.strip.leds.clone();
    match s.on_flush_tick().flush {
        Some(Frame::Rainbow { leds, shifts }) => {
            assert_eq!(leds, stored);
            assert_eq!(shifts, vec![0, 90_000, 180_000]);
        }
        _ => panic!("a rainbow frame was due"),
    }
    assert_eq!(s.on_datagram(b"rainbow"), quiet());
    assert_eq!(s.strip.rainbow, 0);
    s.on_forced_refresh();
    assert_eq!(
        s.on_flush_tick().flush,
        Some(Frame::Plain(vec![Rgb8 { r: 9, g: 8, b: 7 }, grey(0), grey(0)]))
    );
    assert_eq!(s.strip.leds, stored);
}

#[test]
fn rainbow_speed_is_thirty_degrees_a_unit() {
    let mut s = scheduler(1);
    s.on_datagram(&[b'r', 3]);
    assert_eq!(s.strip.rainbow, 90);
    s.on_datagram(b"r12");
    assert_eq!(s.strip.rainbow, 360);
    s.on_datagram(&[b'r', 255]);
    assert_eq!(s.strip.rainbow, 7_650);
    s.on_datagram(b"rainbow");
    assert_eq!(s.strip.rainbow, 0);
    s.on_datagram(&[b'r', 0]);
    assert_eq!(s.strip.rainbow, 0);
    s.on_datagram(b"rainbow");
    assert_eq!(s.strip.rainbow, 270);
}

#[test]
fn timeout_byte_255_stands_for_a_day() {
    assert_eq!(update_timeout(255), 86_400);
    assert_eq!(update_timeout(254), 254);
    assert_eq!(update_timeout(0), 0);
}

#[test]
fn sources_are_served_in_a_fixed_order() {
    let all = sources(true, true, true, true, true);
    assert_eq!(arbitrate(all, all), Some(Source::ForcedRefresh));
    assert_eq!(arbitrate(all, sources(false, true, true, true, true)), Some(Source::Flush));
    assert_eq!(arbitrate(all, sources(false, false, true, true, true)), Some(Source::Effect));
    assert_eq!(arbitrate(all, sources(false, false, false, true, true)), Some(Source::Socket));
    assert_eq!(arbitrate(all, sources(false, false, false, false, true)), Some(Source::IdleDeadline));
    assert_eq!(arbitrate(all, sources(false, false, false, false, false)), None);
}

#[test]
fn a_source_that_is_not_served_is_passed_over() {
    let ready = sources(true, true, true, true, true);
    assert_eq!(arbitrate(sources(false, false, true, true, true), ready), Some(Source::Effect));
    assert_eq!(arbitrate(sources(false, false, false, false, true), ready), Some(Source::IdleDeadline));
    assert_eq!(arbitrate(sources(false, false, false, false, false), ready), None);
}

#[test]
fn forced_refresh_asks_for_a_flush_of_unchanged_colours() {
    let mut s = scheduler(2);
    assert_eq!(s.on_flush_tick(), quiet());
    assert_eq!(s.step(&Event::ForcedRefresh), quiet());
    assert!(s.strip.pending);
    assert_eq!(s.subscriptions(), sources(true, true, false, true, true));
    assert_eq!(s.step(&Event::FlushTick).flush, Some(Frame::Plain(vec![grey(0), grey(0)])));
    assert!(!s.strip.pending);
    assert_eq!(s.step(&Event::FlushTick), quiet());
}

#[test]
fn idle_deadline_fades_the_strip_to_dark_and_rearms() {
    let mut s = scheduler(2);
    s.on_datagram(&[2, 1, 255, 255, 255, 0, 0, 1]);
    assert_eq!(s.step(&Event::IdleDeadline), quiet());
    assert!(s.fading);
    assert_eq!(s.subscriptions(), sources(true, true, true, true, false));
    assert_eq!(s.step(&Event::EffectTick), quiet());
    assert_eq!(s.strip.leds, vec![led(229_500, 229_500, 229_500), led(0, 0, 900)]);
    let mut ticks = 1;
    loop {
        let r = s.on_effect_tick();
        ticks += 1;
        if !s.fading {
            assert_eq!(r, Reaction { rearm: Some(86_400), ..quiet() });
            break;
        }
        assert_eq!(r, quiet());
        assert!(s.strip.pending);
    }
    assert_eq!(ticks, 112);
    assert_eq!(s.strip.leds, vec![led(0, 0, 0); 2]);
    assert_eq!(s.avleds, vec![led(0, 0, 0); 2]);
    assert_eq!(s.subscriptions(), sources(true, true, false, true, true));
    assert_eq!(s.on_effect_tick(), quiet());
}

#[test]
fn a_frame_ends_the_idle_fade() {
    let mut s = scheduler(2);
    s.on_datagram(&[2, 1, 100, 100, 100]);
    s.on_idle_deadline();
    s.on_effect_tick();
    assert_eq!(s.strip.leds[0], led(90_000, 90_000, 90_000));
    let r = s.on_datagram(&[1, 3, 1, 50, 50, 50]);
    assert_eq!(r, Reaction { rearm: Some(3), ..quiet() });
    assert!(!s.fading);
    assert_eq!(s.on_effect_tick(), quiet());
    assert_eq!(s.strip.leds, vec![led(90_000, 90_000, 90_000), led(50_000, 50_000, 50_000)]);
}

#[test]
fn alert_takes_the_strip_over_until_it_has_faded() {
    let mut s = scheduler(2);
    s.on_datagram(&[2, 9, 1, 2, 3]);
    s.on_flush_tick();
    assert_eq!(s.on_datagram(b"warn"), quiet());
    assert_eq!(s.mode, Mode::Alert);
    assert_eq!(s.strip.leds, vec![led(0, 0, 255_000); 2]);
    assert_eq!(s.subscriptions(), sources(false, true, true, false, false));
    assert_eq!(s.on_flush_tick().flush, Some(Frame::Plain(vec![Rgb8 { r: 0, g: 0, b: 255 }; 2])));
    let mut ticks = 0;
    while s.mode == Mode::Alert {
        let r = s.on_effect_tick();
        ticks += 1;
        match r.flush {
            Some(Frame::Plain(colors)) => assert_eq!(colors[0], s.strip.leds[0].to_rgb8()),
            _ => panic!("every tick of the alert changes the strip and shows it"),
        }
        assert!(!s.strip.pending);
        if ticks == 1 {
            assert_eq!(s.strip.leds, vec![led(0, 0, 204_000); 2]);
        }
    }
    assert_eq!(ticks, 15);
    assert_eq!(s.strip.leds, vec![led(0, 0, 8_974); 2]);
    assert_eq!(s.subscriptions(), sources(true, false, false, true, true));
}

#[test]
fn alert_suspends_everything_but_flush_and_effects() {
    let mut s = scheduler(1);
    s.apply(&Command::ToggleAlert);
    s.on_flush_tick();
    let leds = s.strip.leds.clone();
    assert_eq!(s.step(&Event::Datagram(vec![2, 5, 1, 1, 1])), quiet());
    assert_eq!(s.step(&Event::Datagram(b"rainbow".to_vec())), quiet());
    assert_eq!(s.step(&Event::ForcedRefresh), quiet());
    assert_eq!(s.step(&Event::IdleDeadline), quiet());
    assert_eq!(s.strip.leds, leds);
    assert_eq!(s.strip.rainbow, 0);
    assert!(!s.strip.pending && !s.fading);
    assert_eq!(s.mode, Mode::Alert);
}

#[test]
fn alert_on_an_empty_strip_ends_with_its_final_flush() {
    let mut s = scheduler(0);
    s.on_datagram(b"warn");
    assert_eq!(s.mode, Mode::Alert);
    assert_eq!(s.on_effect_tick().flush, Some(Frame::Plain(vec![])));
    assert_eq!(s.mode, Mode::Normal);
}

#[test]
fn audio_visualisation_switches_on_with_the_least_gain() {
    let mut s = scheduler(4);
    assert_eq!(s.on_datagram(b"audvis"), quiet());
    assert!(s.audvis);
    assert_eq!(s.avfact, 1_000);
    assert_eq!(s.subscriptions(), sources(true, false, true, true, true));
    s.avfact = 2_500;
    s.on_datagram(b"audvis");
    assert!(!s.audvis);
    assert_eq!(s.avfact, 2_500);
    s.on_datagram(b"audvis");
    assert_eq!(s.avfact, 1_000);
}

#[test]
fn a_frame_feeds_the_audio_visualisation_at_once() {
    let mut s = scheduler(8);
    s.on_datagram(b"audvis");
    let r = s.on_datagram(&[
        2, 20, 10, 0, 0, 20, 0, 0, 30, 0, 0, 40, 0, 0, 50, 0, 0, 60, 0, 0, 70, 0, 0, 80, 0, 0,
    ]);
    assert_eq!(r, Reaction { rearm: Some(20), restart_effects: true, ..quiet() });
    let lit = led(3_875, 23_375, 56_875);
    let dark = led(0, 0, 0);
    assert_eq!(s.avleds, vec![dark, dark, dark, lit, lit, dark, dark, dark]);
    assert_eq!(s.strip.leds, s.avleds);
    assert_eq!(s.avfact, 1_001);
    assert!(s.strip.pending);
}

#[test]
fn effect_ticks_scroll_the_audio_visualisation() {
    let mut s = scheduler(8);
    s.on_datagram(b"audvis");
    s.on_datagram(&[
        2, 20, 10, 0, 0, 20, 0, 0, 30, 0, 0, 40, 0, 0, 50, 0, 0, 60, 0, 0, 70, 0, 0, 80, 0, 0,
    ]);
    s.on_flush_tick();
    assert_eq!(s.on_effect_tick(), quiet());
    let lit = led(0, 16_266, 49_766);
    let dark = led(0, 0, 0);
    assert_eq!(s.strip.leds, vec![dark, dark, lit, lit, lit, lit, dark, dark]);
    assert_eq!(s.avleds, s.strip.leds);
    assert!(s.strip.pending);
    s.on_effect_tick();
    let lit = led(0, 10_046, 43_546);
    assert_eq!(s.strip.leds, vec![dark, lit, lit, lit, lit, lit, lit, dark]);
}

#[test]
fn an_effect_tick_that_changes_nothing_asks_for_no_flush() {
    let mut s = scheduler(4);
    s.on_datagram(b"audvis");
    assert_eq!(s.on_effect_tick(), quiet());
    assert!(!s.strip.pending);
    assert_eq!(s.strip.leds, vec![led(0, 0, 0); 4]);
}

#[test]
fn hub_sinks_leave_on_the_first_toggle_and_are_asked_for_on_the_next() {
    let hub = StripTransport::hue(String::from("hub"), vec![1]).sample(0, 1, 1).unwrap();
    let mut s = Scheduler::new(StripTransport::composite(vec![StripTransport::ws2812(), hub]), 3);
    assert_eq!(s.on_datagram(b"hue"), quiet());
    match &s.strip.stream {
        StripTransport::Composite(children) => {
            assert_eq!(children.len(), 1);
            assert!(matches!(children[0], StripTransport::Ws2812));
        }
        _ => panic!("still a composite"),
    }
    assert_eq!(s.on_datagram(b"hue"), Reaction { connect_hub: true, ..quiet() });
    assert!(!s.strip.stream.has_hue());
    s.strip.stream.attach(StripTransport::hue(String::from("hub"), vec![1]));
    assert_eq!(s.on_datagram(b"hue"), quiet());
    assert!(!s.strip.stream.has_hue());
}

#[test]
fn a_single_sink_takes_no_hub_toggle() {
    let mut s = Scheduler::new(StripTransport::hue(String::from("hub"), vec![1]), 3);
    assert_eq!(s.on_datagram(b"hue"), quiet());
    assert!(matches!(s.strip.stream, StripTransport::Hue(_)));
}

#[test]
fn malformed_input_changes_nothing() {
    let mut s = scheduler(2);
    for d in [&b""[..], &[1], &[3, 1, 2, 3], b"warn!", b"rainbo", &[0, 0]] {
        assert_eq!(s.on_datagram(d), quiet());
    }
    assert_eq!(s.strip.leds, vec![led(0, 0, 0); 2]);
    assert!(!s.strip.pending);
    assert_eq!(s.mode, Mode::Normal);
    assert_eq!(s.strip.rainbow, 0);
}

#[test]
fn a_sparse_frame_out_of_range_rearms_without_a_flush() {
    let mut s = scheduler(2);
    assert_eq!(s.on_datagram(&[1, 7, 2, 9, 9, 9]), Reaction { rearm: Some(7), ..quiet() });
    assert!(!s.strip.pending);
    assert_eq!(s.strip.leds, vec![led(0, 0, 0); 2]);
}
