//! The secure-stream sink: frame positions map one to one onto the fixtures
//! of a lighting hub, in the hub's streaming format.

use vstd::prelude::*;
use crate::color::Rgb8;

verus! {

/// The most fixtures that one frame can address.
pub const FRAME_CAPACITY: usize = 10;

/// The length of the part of a frame that comes before the records.
pub const PREFIX_LEN: usize = 16;

/// The length of one fixture's record.
pub const RECORD_LEN: usize = 9;

/// A sink that streams to the fixtures of one group of a hub. Once a send
/// has failed it stays disconnected, and writes to it do nothing.
#[derive(Debug)]
pub struct Hue {
    desc: String,
    lights: Vec<u16>,
    connected: bool,
}

/// What every frame starts with: the protocol's name, then version 1.0 and
/// five bytes that are zero for RGB colours addressed by fixture.
pub open spec fn prefix() -> Seq<u8> {
    seq![72u8, 117, 101, 83, 116, 114, 101, 97, 109, 1, 0, 0, 0, 0, 0, 0]
}

/// The record of one fixture: its kind, its identifier with the high byte
/// first, and each channel twice to fill sixteen bits.
pub open spec fn record(id: u16, c: Rgb8) -> Seq<u8> {
    seq![0u8, (id / 256) as u8, (id % 256) as u8, c.r, c.r, c.g, c.g, c.b, c.b]
}

/// How many fixtures a frame addresses: one for each position that has both
/// a fixture and a colour, up to the capacity.
pub open spec fn addressed(lights: int, pixels: int) -> int {
    let both = if lights <= pixels {
        lights
    } else {
        pixels
    };
    if both <= FRAME_CAPACITY {
        both
    } else {
        FRAME_CAPACITY as int
    }
}

/// The frame that carries `pixels` to `lights`: the prefix, then the record
/// of fixture `i` with colour `i`, in the order of the fixture list.
pub open spec fn frame(lights: Seq<u16>, pixels: Seq<Rgb8>) -> Seq<u8> {
    Seq::new(
        (PREFIX_LEN + RECORD_LEN * addressed(lights.len() as int, pixels.len() as int)) as nat,
        |k: int|
            if k < PREFIX_LEN {
                prefix()[k]
            } else {
                record(lights[(k - PREFIX_LEN) / 9], pixels[(k - PREFIX_LEN) / 9])[(k - PREFIX_LEN)
                    % 9]
            },
    )
}

#[verifier::external_type_specification]
#[verifier::external_body]
pub struct ExValue(serde_json::Value);

/// What a JSON value lists under a key: nothing where the value is no
/// object, holds nothing under the key, or holds there what is no list; else
/// the entries of the list in order, each with its text if it is a string.
pub uninterp spec fn listed_under(value: serde_json::Value, key: Seq<char>) -> Option<
    Seq<Option<Seq<char>>>,
>;

/// The entries of a list, each by its view.
pub open spec fn entry_views(entries: Seq<Option<String>>) -> Seq<Option<Seq<char>>> {
    Seq::new(
        entries.len(),
        |i: int|
            match entries[i] {
                Some(text) => Some(text@),
                None => None,
            },
    )
}

/// The `Index` of `serde_json::Value` by a key, then `Value::as_array`, and
/// `Value::as_str` on each entry: the list that stands under `key`, with the
/// text of each entry that is a string.
#[verifier::external_body]
fn entries_under(value: &serde_json::Value, key: &str) -> (r: Option<Vec<Option<String>>>)
    ensures
        match r {
            Some(entries) => listed_under(*value, key@) == Some(entry_views(entries@)),
            None => listed_under(*value, key@) is None,
        },
{
    value[key].as_array().map(|a| a.iter().map(|l| l.as_str().map(String::from)).collect())
}

/// Whether a character is a decimal digit.
pub open spec fn is_decimal(c: char) -> bool {
    48 <= c as u32 <= 57
}

/// The number that a run of decimal digits writes.
pub open spec fn decimal_value(digits: Seq<char>) -> int
    decreases digits.len(),
{
    if digits.len() == 0 {
        0
    } else {
        10 * decimal_value(digits.drop_last()) + (digits.last() as u32 - 48)
    }
}

/// The digits of a number's text: all of it but a plus sign in front.
pub open spec fn unsigned(text: Seq<char>) -> Seq<char> {
    if text.len() > 0 && text[0] == '+' {
        text.skip(1)
    } else {
        text
    }
}

/// The fixture identifier that a text writes: decimal digits, at least one,
/// with or without a plus sign in front, that stay within sixteen bits.
pub open spec fn light_id(text: Seq<char>) -> Option<u16> {
    let digits = unsigned(text);
    if digits.len() > 0 && (forall|i: int| 0 <= i < digits.len() ==> is_decimal(digits[i]))
        && decimal_value(digits) <= u16::MAX {
        Some(decimal_value(digits) as u16)
    } else {
        None
    }
}

/// The fixtures that a list names: entries that are no strings are passed
/// over, and one string that is no identifier spoils the whole list.
pub open spec fn collected(entries: Seq<Option<Seq<char>>>) -> Option<Seq<u16>>
    decreases entries.len(),
{
    if entries.len() == 0 {
        Some(Seq::empty())
    } else {
        match (collected(entries.drop_last()), entries.last()) {
            (None, _) => None,
            (Some(ids), None) => Some(ids),
            (Some(ids), Some(text)) => match light_id(text) {
                Some(id) => Some(ids.push(id)),
                None => None,
            },
        }
    }
}

proof fn lemma_decimal_grows(digits: Seq<char>, k: int)
    requires
        0 <= k <= digits.len(),
        forall|i: int| 0 <= i < digits.len() ==> is_decimal(digits[i]),
    ensures
        0 <= decimal_value(digits.take(k)) <= decimal_value(digits),
    decreases digits.len() - k,
{
    if k == digits.len() {
        assert(digits.take(k) =~= digits);
        lemma_decimal_nonnegative(digits);
    } else {
        lemma_decimal_grows(digits, k + 1);
        assert(digits.take(k + 1).drop_last() =~= digits.take(k));
        assert(is_decimal(digits[k]));
        lemma_decimal_nonnegative(digits.take(k));
    }
}

proof fn lemma_decimal_nonnegative(digits: Seq<char>)
    requires
        forall|i: int| 0 <= i < digits.len() ==> is_decimal(digits[i]),
    ensures
        0 <= decimal_value(digits),
    decreases digits.len(),
{
    if digits.len() > 0 {
        assert(is_decimal(digits[digits.len() - 1]));
        lemma_decimal_nonnegative(digits.drop_last());
    }
}

/// Reads a fixture identifier.
pub fn parse_light_id(text: &str) -> (id: Option<u16>)
    ensures
        id == light_id(text@),
{
    let n: usize = text.unicode_len();
    let start: usize = if n > 0 && text.get_char(0) == '+' {
        1
    } else {
        0
    };
    if start == n {
        return None;
    }
    let ghost digits = unsigned(text@);
    let mut value: u32 = 0;
    let mut i: usize = start;
    assert(digits.take(0) =~= Seq::<char>::empty());
    while i < n
        invariant
            start <= i <= n,
            n == text@.len(),
            digits == unsigned(text@),
            digits.len() == n - start,
            start == 0 ==> digits == text@,
            start == 1 ==> digits == text@.skip(1),
            forall|j: int| 0 <= j < i - start ==> is_decimal(digits[j]),
            value == decimal_value(digits.take(i - start)),
            value <= u16::MAX,
        decreases n - i,
    {
        let c: char = text.get_char(i);
        assert(c == digits[i - start]);
        if !(c as u32 >= 48 && c as u32 <= 57) {
            return None;
        }
        assert(digits.take(i - start + 1).drop_last() =~= digits.take(i - start));
        let next: u32 = 10 * value + (c as u32 - 48);
        if next > 65535 {
            proof {
                if forall|j: int| 0 <= j < digits.len() ==> is_decimal(digits[j]) {
                    lemma_decimal_grows(digits, i - start + 1);
                }
            }
            return None;
        }
        value = next;
        i = i + 1;
    }
    assert(digits.take(n - start) =~= digits);
    Some(value as u16)
}

/// Gathers the fixture identifiers of a list.
pub fn collect_lights(entries: &Vec<Option<String>>) -> (r: Option<Vec<u16>>)
    ensures
        match r {
            Some(ids) => collected(entry_views(entries@)) == Some(ids@),
            None => collected(entry_views(entries@)) is None,
        },
{
    let ghost all = entry_views(entries@);
    let mut ids: Vec<u16> = Vec::new();
    let mut i: usize = 0;
    assert(all.take(0) =~= Seq::<Option<Seq<char>>>::empty());
    while i < entries.len()
        invariant
            i <= entries@.len(),
            all == entry_views(entries@),
            collected(all.take(i as int)) == Some(ids@),
        decreases entries@.len() - i,
    {
        proof {
            assert(all.take(i + 1).drop_last() =~= all.take(i as int));
            assert(all.take(i + 1).last() == all[i as int]);
        }
        match &entries[i] {
            Some(text) => match parse_light_id(text.as_str()) {
                Some(id) => {
                    ids.push(id);
                },
                None => {
                    proof {
                        lemma_collected_spoiled(all, i + 1);
                    }
                    return None;
                },
            },
            None => {},
        }
        i = i + 1;
    }
    assert(all.take(i as int) =~= all);
    Some(ids)
}

proof fn lemma_collected_spoiled(entries: Seq<Option<Seq<char>>>, k: int)
    requires
        0 <= k <= entries.len(),
        collected(entries.take(k)) is None,
    ensures
        collected(entries) is None,
    decreases entries.len() - k,
{
    if k == entries.len() {
        assert(entries.take(k) =~= entries);
    } else {
        assert(entries.take(k + 1).drop_last() =~= entries.take(k));
        lemma_collected_spoiled(entries, k + 1);
    }
}

/// The fixtures that a hub's description of a group names: what its list
/// under `"lights"` reads as, or nothing.
pub open spec fn lights_of(group: serde_json::Value) -> Option<Seq<u16>> {
    match listed_under(group, "lights"@) {
        Some(entries) => collected(entries),
        None => None,
    }
}

/// The value of a hexadecimal digit, of either case.
pub open spec fn hex_value(c: char) -> Option<u8> {
    let v = c as u32;
    if 48 <= v <= 57 {
        Some((v - 48) as u8)
    } else if 97 <= v <= 102 {
        Some((v - 87) as u8)
    } else if 65 <= v <= 70 {
        Some((v - 55) as u8)
    } else {
        None
    }
}

/// The byte that a pair of characters writes: a number in hexadecimal
/// digits, with or without a plus sign in front, so two digits, or a plus
/// sign and one digit.
pub open spec fn hex_pair(a: char, b: char) -> Option<u8> {
    if a == '+' {
        hex_value(b)
    } else if hex_value(a) is Some && hex_value(b) is Some {
        Some((16 * hex_value(a)->0 + hex_value(b)->0) as u8)
    } else {
        None
    }
}

/// The byte that pair `k` of a text writes.
pub open spec fn hex_pair_at(text: Seq<char>, k: int) -> Option<u8> {
    hex_pair(text[2 * k], text[2 * k + 1])
}

/// The bytes that a key's text writes, one for each pair of characters, or
/// nothing where a character has no partner or a pair writes no byte.
pub open spec fn hex_decoded(text: Seq<char>) -> Option<Seq<u8>> {
    if text.len() % 2 == 0 && (forall|k: int|
        0 <= k < text.len() / 2 ==> #[trigger] hex_pair_at(text, k) is Some) {
        Some(Seq::new(text.len() / 2, |k: int| hex_pair_at(text, k)->0))
    } else {
        None
    }
}

fn hex_digit(c: char) -> (v: Option<u8>)
    ensures
        v == hex_value(c),
{
    let v: u32 = c as u32;
    if v >= 48 && v <= 57 {
        Some((v - 48) as u8)
    } else if v >= 97 && v <= 102 {
        Some((v - 87) as u8)
    } else if v >= 65 && v <= 70 {
        Some((v - 55) as u8)
    } else {
        None
    }
}

fn hex_byte(a: char, b: char) -> (v: Option<u8>)
    ensures
        v == hex_pair(a, b),
{
    let lo = hex_digit(b);
    if a == '+' {
        lo
    } else {
        match (hex_digit(a), lo) {
            (Some(h), Some(l)) => Some(16 * h + l),
            _ => None,
        }
    }
}

/// Reads a key that is written in hexadecimal digits.
pub fn decode_hex(text: &str) -> (r: Option<Vec<u8>>)
    ensures
        match r {
            Some(bytes) => hex_decoded(text@) == Some(bytes@),
            None => hex_decoded(text@) is None,
        },
{
    let n: usize = text.unicode_len();
    if n % 2 != 0 {
        return None;
    }
    let mut bytes: Vec<u8> = Vec::new();
    let mut i: usize = 0;
    while i < n
        invariant
            i <= n,
            i % 2 == 0,
            n % 2 == 0,
            n == text@.len(),
            bytes@.len() == i / 2,
            forall|k: int| 0 <= k < i / 2 ==> #[trigger] hex_pair_at(text@, k) == Some(bytes@[k]),
        decreases n - i,
    {
        match hex_byte(text.get_char(i), text.get_char(i + 1)) {
            Some(byte) => {
                bytes.push(byte);
            },
            None => {
                assert(hex_pair_at(text@, i as int / 2) is None);
                return None;
            },
        }
        i = i + 2;
    }
    assert(bytes@ =~= hex_decoded(text@)->0);
    Some(bytes)
}

impl Hue {
    /// The fixtures, in the order in which frames address them.
    pub closed spec fn fixtures(&self) -> Seq<u16> {
        self.lights@
    }

    /// The text that names this sink in diagnostics.
    pub closed spec fn label(&self) -> Seq<char> {
        self.desc@
    }

    /// Whether frames are still being sent.
    pub closed spec fn is_connected(&self) -> bool {
        self.connected
    }

    /// A sink for an established stream to `lights`.
    pub fn new(desc: String, lights: Vec<u16>) -> (h: Hue)
        ensures
            h.fixtures() == lights@,
            h.is_connected(),
            h.label() == desc@,
    {
        Hue { desc, lights, connected: true }
    }

    /// Reads the fixtures out of a hub's description of a group.
    pub fn get_lights(group: serde_json::Value) -> (r: Option<Vec<u16>>)
        ensures
            match r {
                Some(ids) => lights_of(group) == Some(ids@),
                None => lights_of(group) is None,
            },
    {
        match entries_under(&group, "lights") {
            Some(entries) => collect_lights(&entries),
            None => None,
        }
    }

    pub fn connected(&self) -> (c: bool)
        ensures
            c == self.is_connected(),
    {
        self.connected
    }

    pub fn desc(&self) -> (d: &String)
        ensures
            d@ == self.label(),
    {
        &self.desc
    }

    pub fn lights(&self) -> (l: &Vec<u16>)
        ensures
            l@ == self.fixtures(),
    {
        &self.lights
    }

    /// The frame to send for `pixels`, or nothing once disconnected.
    pub fn write(&self, pixels: &[Rgb8]) -> (out: Option<Vec<u8>>)
        ensures
            self.is_connected() ==> out.is_some() && out.unwrap()@ == frame(
                self.fixtures(),
                pixels@,
            ),
            !self.is_connected() ==> out.is_none(),
    {
        if !self.connected {
            return None;
        }
        let both: usize = if self.lights.len() <= pixels.len() {
            self.lights.len()
        } else {
            pixels.len()
        };
        let n: usize = if both <= FRAME_CAPACITY {
            both
        } else {
            FRAME_CAPACITY
        };
        let mut out: Vec<u8> = Vec::new();
        push_prefix(&mut out);
        let mut i: usize = 0;
        while i < n
            invariant
                i <= n <= FRAME_CAPACITY,
                n == addressed(self.lights.len() as int, pixels.len() as int),
                out.len() == PREFIX_LEN + RECORD_LEN * i,
                forall|k: int|
                    0 <= k < out.len() ==> out[k] == frame(self.lights@, pixels@)[k],
            decreases n - i,
        {
            let id: u16 = self.lights[i];
            let c = pixels[i];
            out.push(0);
            out.push((id / 256) as u8);
            out.push((id % 256) as u8);
            out.push(c.r);
            out.push(c.r);
            out.push(c.g);
            out.push(c.g);
            out.push(c.b);
            out.push(c.b);
            i = i + 1;
        }
        assert(out@ =~= frame(self.lights@, pixels@));
        Some(out)
    }

    /// Records how a send ended: a failure disconnects the sink for good.
    pub fn sent(&mut self, delivered: bool)
        ensures
            final(self).is_connected() == (old(self).is_connected() && delivered),
            final(self).fixtures() == old(self).fixtures(),
            final(self).label() == old(self).label(),
    {
        if !delivered {
            self.connected = false;
        }
    }
}

fn push_prefix(out: &mut Vec<u8>)
    requires
        old(out).len() == 0,
    ensures
        final(out)@ == prefix(),
{
    out.push(72);
    out.push(117);
    out.push(101);
    out.push(83);
    out.push(116);
    out.push(114);
    out.push(101);
    out.push(97);
    out.push(109);
    out.push(1);
    out.push(0);
    out.push(0);
    out.push(0);
    out.push(0);
    out.push(0);
    out.push(0);
    assert(out@ =~= prefix());
}

} // verus!
