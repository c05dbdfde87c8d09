use ledstrip::color::Rgb8;
use ledstrip::protocol::{decode, Command, SparseRecord};

fn rgb(r: u8, g: u8, b: u8) -> Rgb8 {
    Rgb8 { r, g, b }
}

#[test]
fn sparse_datagram_decodes_to_timeout_and_records() {
    let commands = decode(&[1, 255, 0, 255, 0, 0, 7, 1, 2, 3]);
    assert_eq!(
        commands,
        vec![
            Command::SetTimeout(255),
            Command::SetSparse {
                records: vec![
                    SparseRecord { index: 0, color: rgb(255, 0, 0) },
                    SparseRecord { index: 7, color: rgb(1, 2, 3) },
                ],
            },
        ]
    );
}

#[test]
fn sparse_datagram_without_records_is_valid() {
    assert_eq!(
        decode(&[1, 9]),
        vec![Command::SetTimeout(9), Command::SetSparse { records: vec![] }]
    );
}

#[test]
fn sparse_datagram_drops_an_unfinished_record() {
    assert_eq!(
        decode(&[1, 9, 4, 10, 20, 30, 5, 6]),
        vec![
            Command::SetTimeout(9),
            Command::SetSparse { records: vec![SparseRecord { index: 4, color: rgb(10, 20, 30) }] },
        ]
    );
}

#[test]
fn sequential_datagram_decodes_to_timeout_and_colours() {
    assert_eq!(
        decode(&[2, 10, 255, 255, 255, 1, 2, 3]),
        vec![
            Command::SetTimeout(10),
            Command::SetSequential { pixels: vec![rgb(255, 255, 255), rgb(1, 2, 3)] },
        ]
    );
}

#[test]
fn sequential_datagram_drops_an_unfinished_colour() {
    assert_eq!(
        decode(&[2, 0, 9, 8, 7, 6, 5]),
        vec![Command::SetTimeout(0), Command::SetSequential { pixels: vec![rgb(9, 8, 7)] }]
    );
}

#[test]
fn mode_byte_alone_is_ignored() {
    assert_eq!(decode(&[1]), vec![]);
    assert_eq!(decode(&[2]), vec![]);
}

#[test]
fn texts_decode_to_their_commands() {
    assert_eq!(decode(b"warn"), vec![Command::ToggleAlert]);
    assert_eq!(decode(b"hue"), vec![Command::ToggleSecureStreamMembership]);
    assert_eq!(decode(b"audvis"), vec![Command::ToggleAudioVis]);
    assert_eq!(decode(b"rainbow"), vec![Command::ToggleRainbow]);
}

#[test]
fn texts_are_exact() {
    assert_eq!(decode(b"Warn"), vec![]);
    assert_eq!(decode(b"warn "), vec![]);
    assert_eq!(decode(b"war"), vec![]);
    assert_eq!(decode(b"rainbows"), vec![]);
    assert_eq!(decode(b"hue\n"), vec![]);
    assert_eq!(decode(b"AUDVIS"), vec![]);
}

#[test]
fn rainbow_speed_as_a_raw_byte() {
    assert_eq!(decode(&[b'r', 3]), vec![Command::SetRainbowSpeedUnits(3)]);
    assert_eq!(decode(&[b'r', 0]), vec![Command::SetRainbowSpeedUnits(0)]);
    assert_eq!(decode(&[b'r', b'7']), vec![Command::SetRainbowSpeedUnits(55)]);
    assert_eq!(decode(&[b'r', 255]), vec![Command::SetRainbowSpeedUnits(255)]);
}

#[test]
fn rainbow_speed_as_two_digits() {
    assert_eq!(decode(b"r12"), vec![Command::SetRainbowSpeedUnits(12)]);
    assert_eq!(decode(b"r00"), vec![Command::SetRainbowSpeedUnits(0)]);
    assert_eq!(decode(b"r99"), vec![Command::SetRainbowSpeedUnits(99)]);
}

#[test]
fn rainbow_speed_needs_digits() {
    assert_eq!(decode(b"r1x"), vec![]);
    assert_eq!(decode(b"rx1"), vec![]);
    assert_eq!(decode(b"r123"), vec![]);
    assert_eq!(decode(b"r"), vec![]);
}

#[test]
fn unknown_input_is_ignored() {
    assert_eq!(decode(&[]), vec![]);
    assert_eq!(decode(&[0, 1, 2, 3]), vec![]);
    assert_eq!(decode(&[3, 10, 1, 2, 3]), vec![]);
    assert_eq!(decode(b"hello"), vec![]);
}
