//! The character maps of precompiled normalizers.
//!
//! A map is a text in Base64. Its bytes are the size of a trie, the trie itself, and
//! the texts that characters are replaced with, each of them ended by a zero. The trie
//! is an array of units of four bytes. A search goes from one unit to another as the
//! units say, and takes what it arrives at for the place of a text.

use crate::text;
use vstd::prelude::*;
use vstd::utf8::*;

verus! {

/// The number that a character of a text in Base64 stands for, and 64 for a character
/// that stands for none.
pub open spec fn sextet(byte: u8) -> u8 {
    if 65 <= byte <= 90 {
        (byte - 65) as u8
    } else if 97 <= byte <= 122 {
        (byte - 71) as u8
    } else if 48 <= byte <= 57 {
        (byte + 4) as u8
    } else if byte == 43 {
        62
    } else if byte == 47 {
        63
    } else {
        64
    }
}

/// The number that a character of a text in Base64 stands for, where it stands for one.
pub open spec fn digit(text: Seq<u8>, i: int) -> u8 {
    if sextet(text[i]) < 64 {
        sextet(text[i])
    } else {
        0
    }
}

/// How many characters fill up a text in Base64.
pub open spec fn padding(text: Seq<u8>) -> nat {
    if text.len() < 2 || text.last() != 61 {
        0
    } else if text[text.len() - 2] != 61 {
        1
    } else {
        2
    }
}

/// Whether a text is one in Base64, filled up, and with no bits left over.
pub open spec fn is_base64(text: Seq<u8>) -> bool {
    &&& text.len() % 4 == 0
    &&& forall|i: int| 0 <= i < text.len() - padding(text) ==> sextet(#[trigger] text[i]) < 64
    &&& padding(text) == 1 ==> digit(text, text.len() - 2) % 4 == 0
    &&& padding(text) == 2 ==> digit(text, text.len() - 3) % 16 == 0
}

/// A byte that a text in Base64 stands for.
pub open spec fn decoded_byte(text: Seq<u8>, i: int) -> u8 {
    let start = i / 3 * 4;
    if i % 3 == 0 {
        (digit(text, start) * 4 + digit(text, start + 1) / 16) as u8
    } else if i % 3 == 1 {
        (digit(text, start + 1) % 16 * 16 + digit(text, start + 2) / 4) as u8
    } else {
        (digit(text, start + 2) % 4 * 64 + digit(text, start + 3)) as u8
    }
}

/// The bytes that a text in Base64 stands for.
pub open spec fn decoded(text: Seq<u8>) -> Seq<u8> {
    Seq::new(
        (text.len() / 4 * 3 - padding(text)) as nat,
        |i: int| decoded_byte(text, i),
    )
}

/// The number that four bytes hold, the lowest first.
pub open spec fn word(bytes: Seq<u8>, at: int) -> u32 {
    (bytes[at] + 0x100 * bytes[at + 1] + 0x1_0000 * bytes[at + 2] + 0x100_0000 * bytes[at
        + 3]) as u32
}

/// How many units the trie of a map has.
pub open spec fn units(map: Seq<u8>) -> u32 {
    word(map, 0) / 4
}

/// A unit of the trie of a map.
pub open spec fn unit(map: Seq<u8>, i: int) -> u32 {
    word(map, 4 + 4 * i)
}

/// The unit that another one leads to.
pub open spec fn target(i: u32, unit: u32) -> u32 {
    i ^ ((unit / 0x400 * (if unit / 0x200 % 2 == 1 {
        0x100
    } else {
        1int
    })) as u32)
}

/// The texts of a map.
pub open spec fn texts(map: Seq<u8>) -> Seq<u8> {
    map.skip(4 + 4 * units(map))
}

/// Whether a position within a text is the start of a character, or the end.
pub open spec fn is_start(text: Seq<u8>, at: int) -> bool {
    at <= text.len() && (at == text.len() || !is_continuation_byte(text[at]))
}

/// Whether a search that comes to a unit can go on: all 256 units of the block that it
/// leads to are there, and where it leads to the place of a text, a character starts at
/// that place. A search comes to the first unit, and else to those alone that are no
/// places.
pub open spec fn leads_on(map: Seq<u8>, i: int) -> bool {
    let next = target(i as u32, unit(map, i));
    i == 0 || unit(map, i) < 0x8000_0000 ==> {
        &&& next / 0x100 * 0x100 + 0xff < units(map)
        &&& unit(map, i) / 0x100 % 2 == 1 ==> is_start(
            texts(map),
            (unit(map, next as int) % 0x8000_0000) as int,
        )
    }
}

/// Whether all that a search in a map comes to is there.
pub open spec fn is_complete(map: Seq<u8>) -> bool {
    &&& map.len() >= 4
    &&& 0 < units(map)
    &&& 4 + 4 * units(map) <= map.len()
    &&& valid_utf8(texts(map))
    &&& forall|i: int| 0 <= i < units(map) ==> #[trigger] leads_on(map, i)
}

/// Whether a text holds a map that is complete.
pub open spec fn holds_map(text: Seq<char>) -> bool {
    is_base64(encode_utf8(text)) && is_complete(decoded(encode_utf8(text)))
}

/// Reads a character of a text in Base64.
fn read_sextet(byte: u8) -> (number: u8)
    ensures
        number == sextet(byte),
{
    if 65 <= byte && byte <= 90 {
        byte - 65
    } else if 97 <= byte && byte <= 122 {
        byte - 71
    } else if 48 <= byte && byte <= 57 {
        byte + 4
    } else if byte == 43 {
        62
    } else if byte == 47 {
        63
    } else {
        64
    }
}

/// Reads a character of a text in Base64, where it stands for a number.
fn read_digit(text: &[u8], i: usize) -> (number: u8)
    requires
        i < text@.len(),
    ensures
        number == digit(text@, i as int),
        number < 64,
{
    let number: u8 = read_sextet(text[i]);
    if number < 64 {
        number
    } else {
        0
    }
}

/// Decodes a text in Base64.
fn decode(text: &[u8]) -> (bytes: Option<Vec<u8>>)
    ensures
        match bytes {
            Some(bytes) => is_base64(text@) && bytes@ == decoded(text@),
            None => !is_base64(text@),
        },
{
    let length: usize = text.len();
    if length % 4 != 0 {
        return None;
    }
    let filled: usize = if length < 2 || text[length - 1] != 61 {
        0
    } else if text[length - 2] != 61 {
        1
    } else {
        2
    };
    let mut i: usize = 0;
    while i < length - filled
        invariant
            i <= length - filled,
            filled <= length,
            length == text@.len(),
            filled == padding(text@),
            forall|j: int| 0 <= j < i ==> sextet(#[trigger] text@[j]) < 64,
        decreases length - filled - i,
    {
        if read_sextet(text[i]) >= 64 {
            return None;
        }
        i += 1;
    }
    if filled == 1 && read_digit(text, length - 2) % 4 != 0 {
        return None;
    }
    if filled == 2 && read_digit(text, length - 3) % 16 != 0 {
        return None;
    }
    let count: usize = length / 4 * 3 - filled;
    let mut bytes: Vec<u8> = Vec::new();
    let mut i: usize = 0;
    while i < count
        invariant
            i <= count,
            length == text@.len(),
            length % 4 == 0,
            count == length / 4 * 3 - filled,
            bytes@.len() == i,
            forall|j: int| 0 <= j < i ==> bytes@[j] == decoded_byte(text@, j),
        decreases count - i,
    {
        let start: usize = i / 3 * 4;
        let byte: u8 = if i % 3 == 0 {
            read_digit(text, start) * 4 + read_digit(text, start + 1) / 16
        } else if i % 3 == 1 {
            read_digit(text, start + 1) % 16 * 16 + read_digit(text, start + 2) / 4
        } else {
            read_digit(text, start + 2) % 4 * 64 + read_digit(text, start + 3)
        };
        bytes.push(byte);
        i += 1;
    }
    assert(bytes@ =~= decoded(text@));
    Some(bytes)
}

/// Reads the number that four bytes hold.
fn read_word(bytes: &Vec<u8>, at: usize) -> (number: u32)
    requires
        at + 4 <= bytes@.len(),
    ensures
        number == word(bytes@, at as int),
{
    assert(bytes.len() <= usize::MAX);
    bytes[at] as u32 + 0x100 * bytes[at + 1] as u32 + 0x1_0000 * bytes[at + 2] as u32 + 0x100_0000
        * bytes[at + 3] as u32
}

/// Whether a search that comes to a unit can go on.
fn can_lead_on(map: &Vec<u8>, count: u32, i: u32) -> (fits: bool)
    requires
        map@.len() >= 4,
        count == units(map@),
        4 + 4 * count <= map@.len(),
        i < count,
    ensures
        fits == leads_on(map@, i as int),
{
    let unit: u32 = read_word(map, 4 + 4 * i as usize);
    if i != 0 && unit >= 0x8000_0000 {
        return true;
    }
    let factor: u32 = if unit / 0x200 % 2 == 1 {
        0x100
    } else {
        1
    };
    let next: u32 = i ^ (unit / 0x400 * factor);
    if next as u64 / 0x100 * 0x100 + 0xff >= count as u64 {
        return false;
    }
    if unit / 0x100 % 2 != 1 {
        return true;
    }
    assert(map.len() <= usize::MAX);
    let start: usize = 4 + 4 * count as usize;
    let length: usize = map.len() - start;
    let at: u32 = read_word(map, 4 + 4 * next as usize) % 0x8000_0000;
    assert(texts(map@).len() == length);
    if at as u64 > length as u64 {
        return false;
    }
    if at as usize == length {
        return true;
    }
    let byte: u8 = map[start + at as usize];
    assert(byte == texts(map@)[at as int]);
    !(0x80 <= byte && byte <= 0xbf)
}

/// Whether a text holds a map that is complete.
pub fn is_map(text: &str) -> (fits: bool)
    ensures
        fits == holds_map(text@),
{
    let map = match decode(text.as_bytes()) {
        Some(map) => map,
        None => return false,
    };
    if map.len() < 4 {
        return false;
    }
    let count: u32 = read_word(&map, 0) / 4;
    if count == 0 || ((map.len() - 4) as u64) < 4 * count as u64 {
        return false;
    }
    let start: usize = 4 + 4 * count as usize;
    let texts_part: &[u8] = vstd::slice::slice_subrange(map.as_slice(), start, map.len());
    assert(texts_part@ =~= texts(map@));
    if !text::is_utf8(texts_part) {
        return false;
    }
    let mut i: u32 = 0;
    while i < count
        invariant
            i <= count,
            map@.len() >= 4,
            map@ == decoded(encode_utf8(text@)),
            count == units(map@),
            4 + 4 * count <= map@.len(),
            forall|j: int| 0 <= j < i ==> #[trigger] leads_on(map@, j),
        decreases count - i,
    {
        if !can_lead_on(&map, count, i) {
            return false;
        }
        i += 1;
    }
    true
}

/// The characters of a text in Base64, in the order of the numbers that they stand for: the
/// letters, capitals first, the digits, `+` and `/`. No other stands for one.
pub proof fn characters_stand_for_their_number(byte: u8)
    ensures
        ({
            let number = sextet(byte);
            let alphabet = "ABCDEFGHIJKLMNOPQRSTUVWXYZabcdefghijklmnopqrstuvwxyz0123456789+/"@;
            &&& alphabet.len() == 64
            &&& number < 64 ==> alphabet[number as int] as int == byte
            &&& number >= 64 ==> forall|i: int| 0 <= i < 64 ==> #[trigger] alphabet[i] as int
                != byte
        }),
{
    reveal_strlit("ABCDEFGHIJKLMNOPQRSTUVWXYZabcdefghijklmnopqrstuvwxyz0123456789+/");
}

/// Four characters of a text in Base64 and the three bytes that they stand for are the same
/// number, once with digits up to 64 and once with digits up to 256.
pub proof fn four_characters_are_three_bytes(text: Seq<u8>, k: int)
    requires
        0 <= k,
        4 * k + 4 <= text.len(),
        text.len() % 4 == 0,
        3 * k + 3 <= decoded(text).len(),
    ensures
        ({
            let bytes = decoded(text);
            0x1_0000 * bytes[3 * k] + 0x100 * bytes[3 * k + 1] + bytes[3 * k + 2] == 0x4_0000
                * digit(text, 4 * k) + 0x1000 * digit(text, 4 * k + 1) + 0x40 * digit(
                text,
                4 * k + 2,
            ) + digit(text, 4 * k + 3)
        }),
        forall|i: int| 0 <= i < text.len() && sextet(text[i]) < 64 ==> #[trigger] digit(text, i)
            == sextet(text[i]),
{
    let bytes = decoded(text);
    assert(3 * k / 3 == k && (3 * k + 1) / 3 == k && (3 * k + 2) / 3 == k);
    assert(bytes[3 * k] == decoded_byte(text, 3 * k));
    assert(bytes[3 * k + 1] == decoded_byte(text, 3 * k + 1));
    assert(bytes[3 * k + 2] == decoded_byte(text, 3 * k + 2));
}

/// A text in Base64 is made of fours of characters that stand for numbers, but that the last
/// may be one or two signs that fill it up, with no bits left over. It stands for three bytes
/// for each four characters, less those that fill it up.
pub proof fn texts_in_base64(text: Seq<u8>, filled: int)
    requires
        text.len() % 4 == 0,
        filled == 0 || filled == 1 || filled == 2,
        filled <= text.len(),
        forall|i: int| text.len() - filled <= i < text.len() ==> text[i] == 61,
        forall|i: int| 0 <= i < text.len() - filled ==> sextet(#[trigger] text[i]) < 64,
    ensures
        filled == 0 ==> is_base64(text),
        filled == 1 ==> (is_base64(text) <==> sextet(text[text.len() - 2]) % 4 == 0),
        filled == 2 ==> (is_base64(text) <==> sextet(text[text.len() - 3]) % 16 == 0),
        decoded(text).len() == text.len() / 4 * 3 - filled,
{
    if filled > 0 {
        assert(text[text.len() - 1] == 61);
    }
    if filled == 2 {
        assert(text[text.len() - 2] == 61);
    }
    if filled == 1 {
        assert(sextet(text[text.len() - 2]) < 64);
    }
    if filled == 2 {
        assert(sextet(text[text.len() - 3]) < 64);
    }
    if filled == 0 && text.len() > 0 {
        assert(sextet(text[text.len() - 1]) < 64);
    }
}

/// A unit and the one after a byte of it lie in one block of 256.
proof fn lemma_block(place: u32, byte: u32)
    requires
        byte < 0x100,
    ensures
        place ^ byte <= place / 0x100 * 0x100 + 0xff,
        place ^ (0xffu32 ^ (place % 0x100) as u32) == place / 0x100 * 0x100 + 0xff,
        0xffu32 ^ ((place % 0x100) as u32) < 0x100,
{
    assert(place ^ byte <= place / 0x100 * 0x100 + 0xff) by (bit_vector)
        requires
            byte < 0x100,
    ;
    assert(place ^ (0xffu32 ^ ((place % 0x100) as u32)) == place / 0x100 * 0x100 + 0xff)
        by (bit_vector);
    assert(0xffu32 ^ ((place % 0x100) as u32) < 0x100) by (bit_vector);
}

/// A search that comes to a unit goes on within the trie, whatever the next byte is: where
/// the unit leads to, with the byte, there is a unit. And where that is the place of a text,
/// a character starts there. A map in which that is so of every unit that a search comes to
/// is complete, if it starts with the size of its trie, holds all of it, and its texts are
/// such.
pub proof fn searches_stay_within_the_map(map: Seq<u8>, i: int)
    requires
        0 <= i < units(map),
    ensures
        leads_on(map, i) <==> (i == 0 || unit(map, i) < 0x8000_0000 ==> {
            let place = target(i as u32, unit(map, i));
            &&& forall|byte: u32| byte < 0x100 ==> #[trigger] (place ^ byte) < units(map)
            &&& unit(map, i) / 0x100 % 2 == 1 ==> {
                let at = unit(map, place as int) % 0x8000_0000;
                at == texts(map).len() || (at < texts(map).len() && !(0x80 <= texts(map)[at as int]
                    <= 0xbf))
            }
        }),
{
    let place = target(i as u32, unit(map, i));
    if place / 0x100 * 0x100 + 0xff < units(map) {
        assert forall|byte: u32| byte < 0x100 implies #[trigger] (place ^ byte) < units(map) by {
            lemma_block(place, byte);
        }
    }
    if forall|byte: u32| byte < 0x100 ==> #[trigger] (place ^ byte) < units(map) {
        lemma_block(place, 0);
        let last = 0xffu32 ^ ((place % 0x100) as u32);
        assert((place ^ last) < units(map));
    }
}

/// What a map is made of: the size of its trie in bytes, then the units of the trie, four
/// bytes each with the lowest first, then the texts.
pub proof fn maps_are_complete(map: Seq<u8>)
    requires
        map.len() >= 4,
    ensures
        ({
            let size = map[0] + 0x100 * map[1] + 0x1_0000 * map[2] + 0x100_0000 * map[3];
            let count = size / 4;
            is_complete(map) <==> {
                &&& 0 < count
                &&& 4 + 4 * count <= map.len()
                &&& valid_utf8(map.skip(4 + 4 * count))
                &&& forall|i: int| 0 <= i < count ==> #[trigger] leads_on(map, i)
            }
        }),
        forall|i: int|
            0 <= i && 8 + 4 * i <= map.len() ==> #[trigger] unit(map, i) == map[4 + 4 * i] + 0x100
                * map[5 + 4 * i] + 0x1_0000 * map[6 + 4 * i] + 0x100_0000 * map[7 + 4 * i],
{
}

/// Where a unit leads to: its offset, which is in its upper bits and counts in steps of 256
/// where the bit below says so, is taken from the place of the unit bit by bit.
pub proof fn units_lead_to_their_offset(i: u32, unit: u32)
    ensures
        unit / 0x200 % 2 == 0 ==> target(i, unit) == i ^ (unit / 0x400),
        unit / 0x200 % 2 == 1 && unit / 0x400 * 0x100 <= u32::MAX ==> target(i, unit) == i ^ ((unit
            / 0x400 * 0x100) as u32),
{
}

/// A text is none in Base64 where its length is no multiple of four, or where a character
/// stands for no number that does not fill it up at its end.
pub proof fn texts_that_are_not_in_base64(text: Seq<u8>, i: int)
    requires
        text.len() % 4 == 0 ==> 0 <= i < text.len() && sextet(text[i]) >= 64,
        text.len() % 4 == 0 && i == text.len() - 1 ==> text[i] != 61,
        text.len() % 4 == 0 && i == text.len() - 2 ==> text[i] != 61 || text.last() != 61,
    ensures
        !is_base64(text),
{
}

/// A text holds a map that is complete if it is one in Base64, and stands for one.
pub proof fn texts_that_hold_maps(text: &str, fits: bool)
    requires
        call_ensures(is_map, (text,), fits),
    ensures
        fits <==> is_base64(encode_utf8(text@)) && is_complete(decoded(encode_utf8(text@))),
{
}

}
