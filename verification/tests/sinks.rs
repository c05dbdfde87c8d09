use ledstrip::color::Rgb8;
use ledstrip::strip_transport::dbgimg::{Capture, DebugImage};
use ledstrip::strip_transport::huee::Hue;
use ledstrip::strip_transport::udpstrip::UdpStrip;
use ledstrip::strip_transport::{is_hue, SampleError, StripTransport, Transfer, WriteError};

fn rgb(r: u8, g: u8, b: u8) -> Rgb8 {
    Rgb8 { r, g, b }
}

fn grey(v: u8) -> Rgb8 {
    Rgb8 { r: v, g: v, b: v }
}

fn hub(lights: Vec<u16>) -> StripTransport {
    StripTransport::hue(String::from("hub/7"), lights)
}

fn peer() -> StripTransport {
    StripTransport::udp([192, 168, 12, 76], 21324)
}

const PREFIX: [u8; 16] = [b'H', b'u', b'e', b'S', b't', b'r', b'e', b'a', b'm', 1, 0, 0, 0, 0, 0, 0];

#[test]
fn relay_datagram_is_header_and_triples() {
    let sink = UdpStrip::new([10, 0, 0, 1], 21324);
    assert_eq!(sink.write(&[rgb(1, 2, 3), rgb(4, 5, 6)]), vec![2, 5, 1, 2, 3, 4, 5, 6]);
    assert_eq!(sink.write(&[]), vec![2, 5]);
}

#[test]
fn relay_datagram_holds_at_most_490_colours() {
    let sink = UdpStrip::new([10, 0, 0, 1], 21324);
    let mut frame = vec![grey(1); 490];
    frame.push(grey(200));
    let out = sink.write(&frame);
    assert_eq!(out.len(), 1472);
    assert_eq!(&out[..2], &[2, 5]);
    assert!(out[2..].iter().all(|b| *b == 1));
}

#[test]
fn relay_datagram_reads_back_as_sequential_colours() {
    let sink = UdpStrip::new([10, 0, 0, 1], 21324);
    let frame = vec![rgb(1, 2, 3), rgb(250, 251, 252)];
    assert_eq!(
        ledstrip::protocol::decode(&sink.write(&frame)),
        vec![
            ledstrip::protocol::Command::SetTimeout(5),
            ledstrip::protocol::Command::SetSequential { pixels: frame },
        ]
    );
}

#[test]
fn hub_frame_is_prefix_and_one_record_for_each_fixture() {
    let sink = Hue::new(String::from("hub"), vec![7, 300]);
    let out = sink.write(&[rgb(1, 2, 3), rgb(255, 0, 128), rgb(9, 9, 9)]).unwrap();
    let mut expected = PREFIX.to_vec();
    expected.extend_from_slice(&[0, 0, 7, 1, 1, 2, 2, 3, 3]);
    expected.extend_from_slice(&[0, 1, 44, 255, 255, 0, 0, 128, 128]);
    assert_eq!(out, expected);
}

#[test]
fn hub_frame_stops_at_the_last_colour() {
    let sink = Hue::new(String::from("hub"), vec![1, 2, 3]);
    let out = sink.write(&[rgb(5, 6, 7)]).unwrap();
    let mut expected = PREFIX.to_vec();
    expected.extend_from_slice(&[0, 0, 1, 5, 5, 6, 6, 7, 7]);
    assert_eq!(out, expected);
    assert_eq!(sink.write(&[]).unwrap(), PREFIX.to_vec());
}

#[test]
fn hub_frame_addresses_at_most_ten_fixtures() {
    let sink = Hue::new(String::from("hub"), (1..=12).collect());
    let out = sink.write(&vec![grey(3); 12]).unwrap();
    assert_eq!(out.len(), 106);
    assert_eq!(&out[97..106], &[0, 0, 10, 3, 3, 3, 3, 3, 3]);
}

#[test]
fn hub_sink_keeps_what_it_was_made_with() {
    let sink = Hue::new(String::from("hub/7[1, 2]"), vec![65535, 2]);
    assert_eq!(sink.desc(), "hub/7[1, 2]");
    assert_eq!(sink.lights(), &vec![65535, 2]);
    assert!(sink.connected());
    assert_eq!(&sink.write(&[grey(0)]).unwrap()[16..], &[0, 255, 255, 0, 0, 0, 0, 0, 0]);
}

#[test]
fn hub_sink_goes_quiet_after_a_failed_send() {
    let mut sink = Hue::new(String::from("hub"), vec![1]);
    sink.sent(true);
    assert!(sink.connected());
    assert!(sink.write(&[grey(1)]).is_some());
    sink.sent(false);
    assert!(!sink.connected());
    assert_eq!(sink.write(&[grey(1)]), None);
    sink.sent(true);
    assert!(!sink.connected());
    assert_eq!(sink.write(&[grey(1)]), None);
}

#[test]
fn debug_image_draws_columns_and_hands_out_the_full_image() {
    let mut sink = DebugImage::new(2, 3);
    assert_eq!(sink.write(&[rgb(1, 2, 3), rgb(4, 5, 6), rgb(7, 8, 9)]), None);
    let capture = sink.write(&[grey(10), grey(20), grey(30)]).unwrap();
    assert_eq!(
        capture,
        Capture {
            index: 0,
            width: 2,
            height: 3,
            data: vec![1, 2, 3, 10, 10, 10, 4, 5, 6, 20, 20, 20, 7, 8, 9, 30, 30, 30],
        }
    );
}

#[test]
fn debug_image_starts_over_on_the_same_image() {
    let mut sink = DebugImage::new(2, 2);
    assert_eq!(sink.write(&[grey(1), grey(2)]), None);
    assert_eq!(sink.write(&[grey(3), grey(4)]).unwrap().index, 0);
    assert_eq!(sink.write(&[grey(5)]), None);
    let second = sink.write(&[]).unwrap();
    assert_eq!(second.index, 1);
    assert_eq!(second.data, vec![5, 5, 5, 3, 3, 3, 2, 2, 2, 4, 4, 4]);
}

#[test]
fn debug_image_ignores_colours_below_its_last_row() {
    let mut sink = DebugImage::new(1, 2);
    let capture = sink.write(&[grey(1), grey(2), grey(3)]).unwrap();
    assert_eq!(capture.data, vec![1, 1, 1, 2, 2, 2]);
}

#[test]
fn debug_image_of_one_column_hands_out_every_frame() {
    let mut sink = DebugImage::new(1, 1);
    for n in 0..3 {
        let capture = sink.write(&[grey(n as u8)]).unwrap();
        assert_eq!(capture.index, n);
        assert_eq!(capture.data, vec![n as u8; 3]);
    }
}

#[test]
fn debug_image_without_columns_takes_nothing_in() {
    let mut flat = DebugImage::new(0, 5);
    assert_eq!(flat.write(&[grey(1)]), None);
    assert_eq!(flat.write(&[grey(1)]), None);
}

#[test]
fn debug_image_without_rows_still_moves_through_its_columns() {
    let mut thin = DebugImage::new(2, 0);
    assert_eq!(thin.write(&[]), None);
    assert_eq!(thin.write(&[]), Some(Capture { index: 0, width: 2, height: 0, data: vec![] }));
    assert_eq!(thin.write(&[grey(1)]), None);
    assert_eq!(thin.write(&[grey(1)]), Some(Capture { index: 1, width: 2, height: 0, data: vec![] }));
}

#[test]
fn sample_wraps_a_leaf() {
    let sampled = peer().sample(30, 75, 15).unwrap();
    match &sampled {
        StripTransport::Sampled(s) => {
            assert_eq!((s.start, s.end, s.count), (30, 75, 15));
            assert!(matches!(*s.base, StripTransport::Udp(_)));
        }
        _ => panic!("a sampler was asked for"),
    }
    assert!(sampled.is_valid());
}

#[test]
fn sample_rejects_a_sampled_sink() {
    let sampled = peer().sample(0, 4, 2).unwrap();
    assert_eq!(sampled.sample(0, 4, 2).unwrap_err(), SampleError::Nested);
}

#[test]
fn sample_rejects_a_composite() {
    let composite = StripTransport::composite(vec![peer()]);
    assert_eq!(composite.sample(0, 4, 2).unwrap_err(), SampleError::Nested);
    assert_eq!(StripTransport::composite(vec![]).sample(0, 0, 0).unwrap_err(), SampleError::Nested);
}

#[test]
fn sample_takes_any_range_and_count() {
    for (start, end, count) in [(0, 4, 0), (0, 4, 5), (5, 4, 1), (4, 4, 1), (0, 0, 0)] {
        let sampled = StripTransport::ws2812().sample(start, end, count).unwrap();
        match &sampled {
            StripTransport::Sampled(s) => {
                assert_eq!((s.start, s.end, s.count), (start, end, count));
                assert!(matches!(*s.base, StripTransport::Ws2812));
            }
            _ => panic!("a sampler was asked for"),
        }
        assert!(!sampled.is_valid());
    }
    assert!(peer().sample(0, 4, 4).unwrap().is_valid());
    assert!(peer().sample(0, 4, 1).unwrap().is_valid());
}

#[test]
fn a_composite_with_a_sampler_that_cannot_cut_its_range_is_not_valid() {
    let sink = StripTransport::composite(vec![peer(), peer().sample(0, 4, 5).unwrap()]);
    assert!(!sink.is_valid());
}

#[test]
fn validity_follows_the_nesting() {
    assert!(StripTransport::ws2812().is_valid());
    assert!(StripTransport::composite(vec![]).is_valid());
    assert!(StripTransport::composite(vec![peer(), hub(vec![1]).sample(0, 3, 1).unwrap()]).is_valid());
    let nested = StripTransport::composite(vec![peer(), StripTransport::composite(vec![])]);
    assert!(!nested.is_valid());
}

#[test]
fn a_leaf_hands_out_one_transfer() {
    let frame = vec![rgb(1, 2, 3), rgb(4, 5, 6)];
    assert_eq!(StripTransport::ws2812().write(&frame), vec![Transfer::Bus(frame.clone())]);
    assert_eq!(
        peer().write(&frame),
        vec![Transfer::Datagram {
            ip: [192, 168, 12, 76],
            port: 21324,
            payload: vec![2, 5, 1, 2, 3, 4, 5, 6],
        }]
    );
    let mut expected = PREFIX.to_vec();
    expected.extend_from_slice(&[0, 0, 7, 1, 1, 2, 2, 3, 3]);
    assert_eq!(hub(vec![7]).write(&frame), vec![Transfer::Secure(expected)]);
    assert_eq!(StripTransport::debug_image(2, 2).write(&frame), vec![Transfer::Idle]);
    assert_eq!(
        StripTransport::debug_image(1, 2).write(&frame),
        vec![Transfer::Keep(Capture { index: 0, width: 1, height: 2, data: vec![1, 2, 3, 4, 5, 6] })]
    );
}

#[test]
fn a_sampler_hands_its_leaf_the_means() {
    let frame: Vec<Rgb8> = (0u8..10).map(grey).collect();
    let mut sink = StripTransport::ws2812().sample(2, 8, 3).unwrap();
    assert_eq!(sink.write(&frame), vec![Transfer::Bus(vec![grey(2), grey(4), grey(6)])]);
}

#[test]
fn a_composite_hands_out_one_transfer_for_each_child() {
    let frame: Vec<Rgb8> = (0u8..6).map(grey).collect();
    let mut sink = StripTransport::composite(vec![
        StripTransport::ws2812(),
        peer().sample(1, 5, 2).unwrap(),
        hub(vec![9]).sample(0, 6, 1).unwrap(),
    ]);
    let mut secure = PREFIX.to_vec();
    secure.extend_from_slice(&[0, 0, 9, 2, 2, 2, 2, 2, 2]);
    assert_eq!(
        sink.write(&frame),
        vec![
            Transfer::Bus(frame.clone()),
            Transfer::Datagram {
                ip: [192, 168, 12, 76],
                port: 21324,
                payload: vec![2, 5, 1, 1, 1, 3, 3, 3],
            },
            Transfer::Secure(secure),
        ]
    );
    assert_eq!(StripTransport::composite(vec![]).write(&frame), vec![]);
}

#[test]
fn a_write_succeeds_when_every_transfer_was_delivered() {
    let mut sink = StripTransport::composite(vec![StripTransport::ws2812(), peer()]);
    sink.write(&[grey(1)]);
    assert_eq!(sink.settle(&[true, true]), Ok(()));
    assert_eq!(sink.settle(&[]), Ok(()));
}

#[test]
fn a_write_fails_when_one_child_fails() {
    let mut sink = StripTransport::composite(vec![StripTransport::ws2812(), peer(), peer()]);
    sink.write(&[grey(1)]);
    assert_eq!(sink.settle(&[true, false, true]), Err(WriteError { sink: 1 }));
    assert_eq!(sink.settle(&[true, true, false]), Err(WriteError { sink: 2 }));
    assert_eq!(sink.settle(&[false, true, true]), Err(WriteError { sink: 0 }));
}

#[test]
fn a_failed_write_names_the_first_failure() {
    let mut sink = StripTransport::composite(vec![StripTransport::ws2812(), peer(), peer()]);
    assert_eq!(sink.settle(&[true, false, false]), Err(WriteError { sink: 1 }));
    assert_eq!(sink.settle(&[false, false, false]), Err(WriteError { sink: 0 }));
}

#[test]
fn a_single_sink_fails_on_its_own_transfer() {
    let mut sink = peer().sample(0, 2, 1).unwrap();
    assert_eq!(sink.settle(&[true]), Ok(()));
    assert_eq!(sink.settle(&[false]), Err(WriteError { sink: 0 }));
    assert_eq!(StripTransport::ws2812().settle(&[false, true]), Err(WriteError { sink: 0 }));
}

#[test]
fn a_failing_hub_sink_fails_nothing_and_goes_quiet() {
    let mut sink = StripTransport::composite(vec![
        hub(vec![1]),
        StripTransport::ws2812(),
        hub(vec![2]).sample(0, 1, 1).unwrap(),
        hub(vec![3]),
    ]);
    let frame = [grey(4)];
    assert_eq!(sink.write(&frame).iter().filter(|t| matches!(t, Transfer::Secure(_))).count(), 3);
    assert_eq!(sink.settle(&[false, true, false, true]), Ok(()));
    let after = sink.write(&frame);
    assert_eq!(after[0], Transfer::Idle);
    assert_eq!(after[1], Transfer::Bus(vec![grey(4)]));
    assert_eq!(after[2], Transfer::Idle);
    assert!(matches!(after[3], Transfer::Secure(_)));
}

#[test]
fn a_failing_hub_sink_does_not_hide_another_failure() {
    let mut sink = StripTransport::composite(vec![hub(vec![1]), peer()]);
    assert_eq!(sink.settle(&[false, false]), Err(WriteError { sink: 1 }));
    assert_eq!(sink.write(&[grey(1)])[0], Transfer::Idle);
}

#[test]
fn a_failing_debug_image_fails_nothing() {
    let mut sink = StripTransport::composite(vec![
        StripTransport::debug_image(1, 1),
        StripTransport::debug_image(1, 2).sample(0, 2, 2).unwrap(),
        StripTransport::ws2812(),
    ]);
    assert_eq!(sink.settle(&[false, false, true]), Ok(()));
    assert_eq!(sink.settle(&[false, false, false]), Err(WriteError { sink: 2 }));
    assert_eq!(StripTransport::debug_image(1, 1).settle(&[false]), Ok(()));
    assert!(matches!(sink.write(&[grey(1), grey(2)])[0], Transfer::Keep(_)));
}

#[test]
fn is_hue_sees_a_hub_sink_behind_a_sampler() {
    assert!(is_hue(&hub(vec![1])));
    assert!(is_hue(&hub(vec![1]).sample(40, 65, 1).unwrap()));
    assert!(!is_hue(&peer()));
    assert!(!is_hue(&peer().sample(40, 65, 1).unwrap()));
    assert!(!is_hue(&StripTransport::composite(vec![hub(vec![1])])));
    assert!(!is_hue(&StripTransport::ws2812()));
    assert!(!is_hue(&StripTransport::debug_image(1, 1)));
}

#[test]
fn hub_sinks_leave_and_join_a_composite() {
    let mut sink = StripTransport::composite(vec![
        hub(vec![1]),
        StripTransport::ws2812(),
        hub(vec![2]).sample(0, 1, 1).unwrap(),
        peer(),
    ]);
    assert!(sink.has_hue());
    sink.remove_hue();
    assert!(!sink.has_hue());
    match &sink {
        StripTransport::Composite(children) => {
            assert_eq!(children.len(), 2);
            assert!(matches!(children[0], StripTransport::Ws2812));
            assert!(matches!(children[1], StripTransport::Udp(_)));
        }
        _ => panic!("still a composite"),
    }
    sink.attach(hub(vec![3]).sample(40, 65, 1).unwrap());
    assert!(sink.has_hue());
    assert!(sink.is_valid());
    assert_eq!(sink.write(&vec![grey(1); 70]).len(), 3);
}

#[test]
fn a_single_sink_has_no_children_to_lose_or_gain() {
    let mut sink = hub(vec![1]);
    assert!(!sink.has_hue());
    sink.remove_hue();
    assert!(matches!(sink, StripTransport::Hue(_)));
    sink.attach(peer());
    assert!(matches!(sink, StripTransport::Hue(_)));
}

#[test]
fn a_leaf_is_described_by_its_kind_and_its_target() {
    assert_eq!(StripTransport::ws2812().describe(), "ws2812");
    assert_eq!(StripTransport::debug_image(3, 2).describe(), "dbg");
    assert_eq!(peer().describe(), "udp:192.168.12.76:21324");
    assert_eq!(StripTransport::udp([0, 0, 0, 0], 0).describe(), "udp:0.0.0.0:0");
    assert_eq!(StripTransport::udp([255, 10, 100, 9], 65535).describe(), "udp:255.10.100.9:65535");
    assert_eq!(
        StripTransport::hue(String::from("192.168.12.49/7[3, 12]"), vec![3, 12]).describe(),
        "hue:192.168.12.49/7[3, 12]"
    );
}

#[test]
fn a_sampler_is_described_by_its_sink_range_and_count() {
    assert_eq!(peer().sample(30, 75, 15).unwrap().describe(), "udp:192.168.12.76:21324[30..75:15]");
    assert_eq!(StripTransport::ws2812().sample(0, 1000, 0).unwrap().describe(), "ws2812[0..1000:0]");
    assert_eq!(
        StripTransport::ws2812().sample(usize::MAX, 7, 10).unwrap().describe(),
        format!("ws2812[{}..7:10]", usize::MAX)
    );
}

#[test]
fn a_composite_is_described_as_the_list_of_its_children() {
    let sink = StripTransport::composite(vec![
        StripTransport::ws2812(),
        peer().sample(30, 75, 15).unwrap(),
        hub(vec![1]).sample(40, 65, 1).unwrap(),
    ]);
    assert_eq!(sink.describe(), "([ws2812, udp:192.168.12.76:21324[30..75:15], hue:hub/7[40..65:1]])");
    assert_eq!(StripTransport::composite(vec![]).describe(), "([])");
    assert_eq!(StripTransport::composite(vec![StripTransport::debug_image(1, 1)]).describe(), "([dbg])");
    let nested = StripTransport::composite(vec![StripTransport::composite(vec![peer()]), StripTransport::ws2812()]);
    assert_eq!(nested.describe(), "([([udp:192.168.12.76:21324]), ws2812])");
}
