use ledstrip::strip_transport::huee::{collect_lights, decode_hex, parse_light_id, Hue};

fn group(text: &str) -> serde_json::Value {
    serde_json::from_str(text).unwrap()
}

#[test]
fn get_lights_reads_the_identifiers_in_order() {
    let described = group(r#"{"name":"study","lights":["3","12","65535","0"],"type":"Entertainment"}"#);
    assert_eq!(Hue::get_lights(described), Some(vec![3, 12, 65535, 0]));
}

#[test]
fn get_lights_passes_over_entries_that_are_no_strings() {
    let described = group(r#"{"lights":["1",2,null,["3"],{"4":"5"},true,"6"]}"#);
    assert_eq!(Hue::get_lights(described), Some(vec![1, 6]));
}

#[test]
fn get_lights_of_an_empty_list_is_empty() {
    assert_eq!(Hue::get_lights(group(r#"{"lights":[]}"#)), Some(vec![]));
    assert_eq!(Hue::get_lights(group(r#"{"lights":[1,2]}"#)), Some(vec![]));
}

#[test]
fn get_lights_is_spoiled_by_a_string_that_is_no_identifier() {
    assert_eq!(Hue::get_lights(group(r#"{"lights":["1","x","3"]}"#)), None);
    assert_eq!(Hue::get_lights(group(r#"{"lights":["65536"]}"#)), None);
    assert_eq!(Hue::get_lights(group(r#"{"lights":["1",""]}"#)), None);
    assert_eq!(Hue::get_lights(group(r#"{"lights":["-1"]}"#)), None);
}

#[test]
fn get_lights_needs_a_list_under_lights() {
    assert_eq!(Hue::get_lights(group(r#"{"name":"study"}"#)), None);
    assert_eq!(Hue::get_lights(group(r#"{"lights":"1"}"#)), None);
    assert_eq!(Hue::get_lights(group(r#"{"lights":{"1":"2"}}"#)), None);
    assert_eq!(Hue::get_lights(group(r#"["1","2"]"#)), None);
    assert_eq!(Hue::get_lights(group("null")), None);
}

#[test]
fn collect_lights_gathers_what_the_strings_write() {
    let entries = vec![Some(String::from("7")), None, Some(String::from("+8")), Some(String::from("009"))];
    assert_eq!(collect_lights(&entries), Some(vec![7, 8, 9]));
    assert_eq!(collect_lights(&vec![]), Some(vec![]));
    assert_eq!(collect_lights(&vec![None, Some(String::from("1 "))]), None);
}

#[test]
fn a_light_identifier_is_written_in_decimal_digits() {
    assert_eq!(parse_light_id("0"), Some(0));
    assert_eq!(parse_light_id("42"), Some(42));
    assert_eq!(parse_light_id("65535"), Some(65535));
    assert_eq!(parse_light_id("00000000000000000000007"), Some(7));
    assert_eq!(parse_light_id("+5"), Some(5));
}

#[test]
fn a_light_identifier_rejects_anything_else() {
    for text in ["", "+", "-5", "65536", "99999999999999999999", "1a", " 1", "1 ", "0x10", "1_0", "+-1", "++1", "٣"] {
        assert_eq!(parse_light_id(text), None, "{:?}", text);
        assert_eq!(parse_light_id(text), text.parse::<u16>().ok(), "{:?}", text);
    }
}

#[test]
fn a_light_identifier_reads_as_the_standard_library_reads_it() {
    for text in ["0", "1", "65535", "65536", "+0", "+65535", "0065535", "655350", "12x"] {
        assert_eq!(parse_light_id(text), text.parse::<u16>().ok(), "{:?}", text);
    }
}

#[test]
fn a_key_is_read_two_digits_to_the_byte() {
    assert_eq!(decode_hex("00ff1A"), Some(vec![0x00, 0xff, 0x1a]));
    assert_eq!(
        decode_hex("0123456789abcdefABCDEF"),
        Some(vec![0x01, 0x23, 0x45, 0x67, 0x89, 0xab, 0xcd, 0xef, 0xab, 0xcd, 0xef])
    );
    assert_eq!(decode_hex(""), Some(vec![]));
}

#[test]
fn a_key_may_write_a_byte_as_a_plus_sign_and_one_digit() {
    assert_eq!(decode_hex("+f"), Some(vec![0x0f]));
    assert_eq!(decode_hex("10+0+A"), Some(vec![0x10, 0x00, 0x0a]));
}

#[test]
fn a_key_with_a_stray_character_is_no_key() {
    for text in ["abc", "zz", "0g", "g0", "12 4", "é1", "-f", "++", "+g", "f+", "0x", "+"] {
        assert_eq!(decode_hex(text), None, "{:?}", text);
    }
}

#[test]
fn a_pair_of_a_key_reads_as_the_standard_library_reads_it() {
    let marks = ['0', '9', 'a', 'f', 'g', 'A', 'F', 'G', '+', '-', ' ', '/', ':', '@', '`', 'x'];
    for a in marks {
        for b in marks {
            let pair: String = [a, b].iter().collect();
            assert_eq!(
                decode_hex(&pair),
                u8::from_str_radix(&pair, 16).ok().map(|byte| vec![byte]),
                "{:?}",
                pair
            );
        }
    }
}
