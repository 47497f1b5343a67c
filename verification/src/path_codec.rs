//! Paths as an index holds them: UTF-16, little-endian, with `\` between the
//! components and no terminator.

use vstd::prelude::*;
use vstd::std_specs::iter::IteratorSpec;
use vstd::utf8::{encode_scalar, encode_utf8};

use crate::error::{Error, ErrorView, Utf16Fault};
use crate::wire::{
    get_u16_le, lemma_from_le_prefix, group_le_len, lemma_u16_le_len, lemma_u16_le_round_trip,
    put_u16_le,
    u16_from_le, u16_le,
};

verus! {

/// `text` with every `from` turned into `to`.
pub open spec fn replaced(text: Seq<char>, from: char, to: char) -> Seq<char> {
    text.map_values(
        |c: char|
            if c == from {
                to
            } else {
                c
            },
    )
}

/// The one or two UTF-16 code units of `c`.
pub open spec fn utf16_units(c: char) -> Seq<u16> {
    let v = c as u32;
    if v < 0x1_0000 {
        seq![v as u16]
    } else {
        seq![
            (0xD800 + (v - 0x1_0000) / 0x400) as u16,
            (0xDC00 + (v - 0x1_0000) % 0x400) as u16,
        ]
    }
}

/// The UTF-16 code units of `text`.
pub open spec fn encode_utf16(text: Seq<char>) -> Seq<u16> {
    text.flat_map(|c: char| utf16_units(c))
}

/// The code units laid out as bytes, each unit least significant byte first.
pub open spec fn units_le(units: Seq<u16>) -> Seq<u8> {
    units.flat_map(|unit: u16| u16_le(unit))
}

/// The bytes that stand for `path` in an index.
pub open spec fn path_bytes(path: Seq<char>) -> Seq<u8> {
    units_le(encode_utf16(replaced(path, '/', '\\')))
}

/// The bytes taken two by two as code units; an odd last byte is left out.
pub open spec fn le_units(bytes: Seq<u8>) -> Seq<u16> {
    Seq::new(bytes.len() / 2, |i: int| u16_from_le(bytes.skip(2 * i)))
}

/// Whether `unit` is one half of a surrogate pair.
pub open spec fn is_surrogate(unit: u16) -> bool {
    0xD800 <= unit < 0xE000
}

/// The character that the pair of a high and a low surrogate stands for.
pub open spec fn paired(high: u16, low: u16) -> char {
    (0x1_0000 + (high - 0xD800) * 0x400 + (low - 0xDC00)) as char
}

/// The text that `units` encode, if they are well-formed UTF-16: every unit
/// outside the surrogate range is a character, a high surrogate must be
/// followed by a low one, and a low surrogate may not stand first.
pub open spec fn decode_utf16(units: Seq<u16>) -> Option<Seq<char>>
    decreases units.len(),
{
    if units.len() == 0 {
        Some(Seq::empty())
    } else if !is_surrogate(units[0]) {
        match decode_utf16(units.skip(1)) {
            Some(rest) => Some(seq![units[0] as char] + rest),
            None => None,
        }
    } else if units[0] < 0xDC00 && units.len() >= 2 && 0xDC00 <= units[1] < 0xE000 {
        match decode_utf16(units.skip(2)) {
            Some(rest) => Some(seq![paired(units[0], units[1])] + rest),
            None => None,
        }
    } else {
        None
    }
}

/// What a run of bytes is read as: a text, unless the number of bytes is odd
/// or the code units are not well-formed.
pub open spec fn utf16_text(bytes: Seq<u8>) -> Result<Seq<char>, ErrorView> {
    if bytes.len() % 2 != 0 {
        Err(ErrorView::InvalidUtf16(Utf16Fault::UnevenBytes))
    } else {
        match decode_utf16(le_units(bytes)) {
            Some(text) => Ok(text),
            None => Err(ErrorView::InvalidUtf16(Utf16Fault::Malformed)),
        }
    }
}

/// The bytes of a path with one more character are the bytes of the path
/// and, behind them, the bytes of that character, `\\` for `/`.
proof fn lemma_path_bytes_push(text: Seq<char>, c: char)
    ensures
        path_bytes(text.push(c)) == path_bytes(text) + units_le(
            utf16_units(
                if c == '/' {
                    '\\'
                } else {
                    c
                },
            ),
        ),
{
    broadcast use Seq::lemma_flatten_push;
    let swap = |c: char| if c == '/' { '\\' } else { c };
    let units = |c: char| utf16_units(c);
    let d = swap(c);
    assert(replaced(text.push(c), '/', '\\') =~= replaced(text, '/', '\\').push(d));
    let r = replaced(text, '/', '\\');
    assert(r.push(d).map_values(units) =~= r.map_values(units).push(utf16_units(d)));
    assert(encode_utf16(r.push(d)) == encode_utf16(r) + utf16_units(d));
    lemma_units_le_concat(encode_utf16(r), utf16_units(d));
}

/// Laying out code units as bytes goes unit by unit.
pub proof fn lemma_units_le_concat(a: Seq<u16>, b: Seq<u16>)
    ensures
        units_le(a + b) == units_le(a) + units_le(b),
{
    let bytes = |unit: u16| u16_le(unit);
    assert((a + b).map_values(bytes) =~= a.map_values(bytes) + b.map_values(bytes));
    vstd::seq_lib::lemma_flatten_concat(a.map_values(bytes), b.map_values(bytes));
}

/// Turns a relative path into the bytes that stand for it in an index.
pub fn unicode_filepath_bytes(path: &str) -> (bytes: Vec<u8>)
    ensures
        bytes@ == path_bytes(path@),
{
    broadcast use vstd::string::group_string_axioms;
    let mut bytes: Vec<u8> = Vec::new();
    let mut chars = path.chars();
    let ghost mut done: int = 0;
    assert(path@.take(0) =~= Seq::<char>::empty());
    assert(path_bytes(Seq::<char>::empty()) =~= Seq::<u8>::empty()) by {
        assert(replaced(Seq::<char>::empty(), '/', '\\') =~= Seq::<char>::empty());
        assert(Seq::<char>::empty().map_values(|c: char| utf16_units(c)) =~= Seq::<
            Seq<u16>,
        >::empty());
        assert(Seq::<u16>::empty().map_values(|unit: u16| u16_le(unit)) =~= Seq::<
            Seq<u8>,
        >::empty());
    }
    loop
        invariant
            chars.obeys_prophetic_iter_laws(),
            0 <= done <= path@.len(),
            chars.remaining() == path@.skip(done),
            bytes@ == path_bytes(path@.take(done)),
        ensures
            bytes@ == path_bytes(path@),
        decreases path@.len() - done,
    {
        match chars.next() {
            Some(c) => {
                let c = if c == '/' { '\\' } else { c };
                let v = c as u32;
                proof {
                    lemma_path_bytes_push(path@.take(done), path@[done]);
                    assert(path@.take(done).push(path@[done]) =~= path@.take(done + 1));
                    reveal_with_fuel(Seq::flatten, 3);
                    assert(utf16_units(c).map_values(|unit: u16| u16_le(unit)) =~= if v < 0x1_0000 {
                        seq![u16_le(utf16_units(c)[0])]
                    } else {
                        seq![u16_le(utf16_units(c)[0]), u16_le(utf16_units(c)[1])]
                    });
                }
                if v < 0x1_0000 {
                    put_u16_le(&mut bytes, v as u16);
                } else {
                    put_u16_le(&mut bytes, (0xD800 + (v - 0x1_0000) / 0x400) as u16);
                    put_u16_le(&mut bytes, (0xDC00 + (v - 0x1_0000) % 0x400) as u16);
                }
                proof {
                    done = done + 1;
                }
            },
            None => {
                assert(path@.take(done) =~= path@);
                break;
            },
        }
    }
    bytes
}

/// What the bytes of a path in an index are read as: the text that they
/// encode, with `/` between the components.
pub open spec fn path_text(bytes: Seq<u8>) -> Result<Seq<char>, ErrorView> {
    match utf16_text(bytes) {
        Ok(text) => Ok(replaced(text, '\\', '/')),
        Err(e) => Err(e),
    }
}

/// The text decoded so far in front of what the units still to come decode to.
pub open spec fn prepended(done: Seq<char>, rest: Option<Seq<char>>) -> Option<Seq<char>> {
    match rest {
        Some(rest) => Some(done + rest),
        None => None,
    }
}

/// Reads a run of UTF-16 bytes, least significant byte first, as a text.
pub fn parse_utf16(bytes: &[u8]) -> (r: Result<String, Error>)
    ensures
        (match r {
            Ok(text) => utf16_text(bytes@) == Ok::<_, ErrorView>(text@),
            Err(e) => utf16_text(bytes@) == Err::<Seq<char>, _>(e@),
        }),
{
    if bytes.len() % 2 != 0 {
        return Err(Error::InvalidUtf16(Utf16Fault::UnevenBytes));
    }
    let count = bytes.len() / 2;
    let ghost units = le_units(bytes@);
    let mut text = String::new();
    let mut at: usize = 0;
    assert(units.skip(0) =~= units);
    assert(Seq::<char>::empty() + decode_utf16(units).unwrap() =~= decode_utf16(units).unwrap());
    while at < count
        invariant
            bytes.len() == 2 * count,
            units == le_units(bytes@),
            at <= count,
            decode_utf16(units) == prepended(text@, decode_utf16(units.skip(at as int))),
        decreases count - at,
    {
        let ghost rest = units.skip(at as int);
        let unit = get_u16_le(bytes, 2 * at);
        assert(rest[0] == unit);
        let scalar: u32 = if unit < 0xD800 || unit >= 0xE000 {
            assert(rest.skip(1) =~= units.skip(at + 1));
            at = at + 1;
            unit as u32
        } else if unit < 0xDC00 && at + 1 < count {
            let low = get_u16_le(bytes, 2 * at + 2);
            assert(rest[1] == low);
            if low < 0xDC00 || low >= 0xE000 {
                return Err(Error::InvalidUtf16(Utf16Fault::Malformed));
            }
            assert(rest.skip(2) =~= units.skip(at + 2));
            at = at + 2;
            0x1_0000 + (unit as u32 - 0xD800) * 0x400 + (low as u32 - 0xDC00)
        } else {
            return Err(Error::InvalidUtf16(Utf16Fault::Malformed));
        };
        match char::from_u32(scalar) {
            Some(c) => {
                let ghost before = text@;
                text.push(c);
                proof {
                    let tail = decode_utf16(units.skip(at as int));
                    if tail is Some {
                        let rest = tail.unwrap();
                        assert(before + (seq![c] + rest) =~= before.push(c) + rest);
                    }
                }
            },
            None => {
                return Err(Error::InvalidUtf16(Utf16Fault::Malformed));
            },
        }
    }
    assert(text@ + Seq::<char>::empty() =~= text@);
    Ok(text)
}

/// Turns the bytes that stand for a path in an index into the relative path,
/// with `/` between its components.
pub fn unicode_filepath_text(bytes: &[u8]) -> (r: Result<String, Error>)
    ensures
        (match r {
            Ok(path) => path_text(bytes@) == Ok::<_, ErrorView>(path@),
            Err(e) => path_text(bytes@) == Err::<Seq<char>, _>(e@),
        }),
{
    match parse_utf16(bytes) {
        Ok(text) => Ok(replace_char(text.as_str(), '\\', '/')),
        Err(e) => Err(e),
    }
}

/// Code units that are laid out as bytes and taken two by two again are the
/// same code units.
pub proof fn lemma_units_le_round_trip(units: Seq<u16>)
    ensures
        units_le(units).len() == 2 * units.len(),
        le_units(units_le(units)) == units,
    decreases units.len(),
{
    broadcast use group_le_len;
    let bytes_of = |unit: u16| u16_le(unit);
    if units.len() == 0 {
        assert(units.map_values(bytes_of) =~= Seq::<Seq<u8>>::empty());
        assert(units_le(units) =~= Seq::<u8>::empty());
        assert(le_units(units_le(units)) =~= units);
    } else {
        let front = units.drop_last();
        let last = units.last();
        lemma_units_le_round_trip(front);
        assert(units =~= front + seq![last]);
        lemma_units_le_concat(front, seq![last]);
        assert(units_le(seq![last]) =~= u16_le(last)) by {
            assert(seq![last].map_values(bytes_of) =~= seq![u16_le(last)]);
            seq![u16_le(last)].lemma_flatten_one_element();
        }
        let head = units_le(front);
        let whole = head + u16_le(last);
        assert(units_le(units) == whole);
        lemma_u16_le_len(last);
        assert(whole.len() == 2 * units.len());
        assert(le_units(whole) =~= units) by {
            assert forall|i: int| 0 <= i < units.len() implies le_units(whole)[i] == units[i] by {
                if i < front.len() {
                    assert(whole.skip(2 * i).take(2) =~= head.skip(2 * i).take(2));
                    lemma_from_le_prefix(whole.skip(2 * i), head.skip(2 * i));
                    assert(le_units(head)[i] == front[i]);
                } else {
                    assert(whole.skip(2 * i) =~= u16_le(last) + Seq::<u8>::empty());
                    lemma_u16_le_round_trip(last, Seq::empty());
                }
            }
        }
    }
}

/// A text that is encoded as UTF-16 and decoded again is the same text.
pub proof fn lemma_utf16_round_trip(text: Seq<char>)
    ensures
        decode_utf16(encode_utf16(text)) == Some(text),
    decreases text.len(),
{
    let units_of = |c: char| utf16_units(c);
    if text.len() == 0 {
        assert(text.map_values(units_of) =~= Seq::<Seq<u16>>::empty());
        assert(text =~= Seq::<char>::empty());
    } else {
        let c = text[0];
        let tail = text.drop_first();
        lemma_utf16_round_trip(tail);
        assert(text.map_values(units_of).drop_first() =~= tail.map_values(units_of));
        let units = encode_utf16(text);
        assert(units == utf16_units(c) + encode_utf16(tail));
        let v = c as u32;
        vstd::utf8::char_is_scalar(c);
        vstd::utf8::char_u32_cast(c, v);
        if v < 0x1_0000 {
            assert(units.skip(1) =~= encode_utf16(tail));
            assert(units[0] == v);
            assert(units[0] as char == c);
        } else {
            assert(units.skip(2) =~= encode_utf16(tail));
            let high = units[0];
            let low = units[1];
            assert(high == 0xD800 + (v - 0x1_0000) / 0x400);
            assert(low == 0xDC00 + (v - 0x1_0000) % 0x400);
            assert(0x1_0000 + (high - 0xD800) * 0x400 + (low - 0xDC00) == v);
            assert(paired(high, low) == c);
        }
        assert(seq![c] + tail =~= text);
    }
}

/// Turning `/` into `\` and then `\` into `/` leaves a text in which every
/// separator is `/`.
pub proof fn lemma_separators_normalized(path: Seq<char>)
    ensures
        replaced(replaced(path, '/', '\\'), '\\', '/') == replaced(path, '\\', '/'),
{
    assert(replaced(replaced(path, '/', '\\'), '\\', '/') =~= replaced(path, '\\', '/'));
}

/// A path that is turned into the bytes of an index and back is the same
/// path with `/` for every separator; the bytes themselves hold `\` for every
/// separator.
pub proof fn lemma_path_round_trip(path: Seq<char>)
    ensures
        path_bytes(path).len() % 2 == 0,
        utf16_text(path_bytes(path)) == Ok::<_, ErrorView>(replaced(path, '/', '\\')),
        path_text(path_bytes(path)) == Ok::<_, ErrorView>(replaced(path, '\\', '/')),
{
    let units = encode_utf16(replaced(path, '/', '\\'));
    lemma_units_le_round_trip(units);
    lemma_utf16_round_trip(replaced(path, '/', '\\'));
    lemma_separators_normalized(path);
}

/// A text has at most as many characters as the code units it was read from.
pub proof fn lemma_decode_utf16_len(units: Seq<u16>)
    ensures
        decode_utf16(units) is Some ==> decode_utf16(units)->0.len() <= units.len(),
    decreases units.len(),
{
    if units.len() > 0 {
        lemma_decode_utf16_len(units.skip(1));
        if units.len() >= 2 {
            lemma_decode_utf16_len(units.skip(2));
        }
    }
}

/// A text takes at most four bytes a character in UTF-8.
pub proof fn lemma_encode_utf8_len(text: Seq<char>)
    ensures
        encode_utf8(text).len() <= 4 * text.len(),
    decreases text.len(),
{
    if text.len() > 0 {
        lemma_encode_utf8_len(text.drop_first());
        assert(encode_scalar(text[0] as u32).len() <= 4);
    }
}

/// `text` with every `from` turned into `to`.
pub fn replace_char(text: &str, from: char, to: char) -> (replaced_text: String)
    ensures
        replaced_text@ == replaced(text@, from, to),
{
    broadcast use vstd::string::group_string_axioms;
    let mut out = String::new();
    let mut chars = text.chars();
    let ghost mut done: int = 0;
    loop
        invariant
            chars.obeys_prophetic_iter_laws(),
            0 <= done <= text@.len(),
            chars.remaining() == text@.skip(done),
            out@ == replaced(text@.take(done), from, to),
        ensures
            out@ == replaced(text@, from, to),
        decreases text@.len() - done,
    {
        match chars.next() {
            Some(c) => {
                out.push(if c == from { to } else { c });
                proof {
                    assert(replaced(text@.take(done + 1), from, to) =~= replaced(
                        text@.take(done),
                        from,
                        to,
                    ).push(if c == from { to } else { c }));
                    done = done + 1;
                }
            },
            None => {
                assert(text@.take(done) =~= text@);
                break;
            },
        }
    }
    out
}

} // verus!
