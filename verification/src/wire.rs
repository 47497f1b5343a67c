//! Little-endian integers as they stand in an archive.

use vstd::prelude::*;

verus! {

/// The two bytes of `x`, least significant first.
#[verifier::opaque]
pub open spec fn u16_le(x: u16) -> Seq<u8> {
    seq![(x % 0x100) as u8, (x / 0x100) as u8]
}

/// The four bytes of `x`, least significant first.
#[verifier::opaque]
pub open spec fn u32_le(x: u32) -> Seq<u8> {
    seq![
        (x % 0x100) as u8,
        (x / 0x100 % 0x100) as u8,
        (x / 0x1_0000 % 0x100) as u8,
        (x / 0x100_0000) as u8,
    ]
}

/// The eight bytes of `x`, least significant first.
#[verifier::opaque]
pub open spec fn u64_le(x: u64) -> Seq<u8> {
    u32_le((x % 0x1_0000_0000) as u32) + u32_le((x / 0x1_0000_0000) as u32)
}

/// The bit pattern of `x` in two's complement.
pub open spec fn i32_bits(x: i32) -> u32 {
    if x >= 0 {
        x as u32
    } else {
        (x + 0x1_0000_0000) as u32
    }
}

/// The signed number whose two's complement bit pattern is `bits`.
pub open spec fn i32_of_bits(bits: u32) -> i32 {
    if bits < 0x8000_0000 {
        bits as i32
    } else {
        (bits - 0x1_0000_0000) as i32
    }
}

/// The four bytes of `x` in two's complement, least significant first.
pub open spec fn i32_le(x: i32) -> Seq<u8> {
    u32_le(i32_bits(x))
}

/// The number that the first two bytes of `bytes` spell.
#[verifier::opaque]
pub open spec fn u16_from_le(bytes: Seq<u8>) -> u16
    recommends
        bytes.len() >= 2,
{
    (bytes[0] + 0x100 * bytes[1]) as u16
}

/// The number that the first four bytes of `bytes` spell.
#[verifier::opaque]
pub open spec fn u32_from_le(bytes: Seq<u8>) -> u32
    recommends
        bytes.len() >= 4,
{
    (bytes[0] + 0x100 * bytes[1] + 0x1_0000 * bytes[2] + 0x100_0000 * bytes[3]) as u32
}

/// The number that the first eight bytes of `bytes` spell.
#[verifier::opaque]
pub open spec fn u64_from_le(bytes: Seq<u8>) -> u64
    recommends
        bytes.len() >= 8,
{
    (u32_from_le(bytes) + 0x1_0000_0000 * u32_from_le(bytes.skip(4))) as u64
}

/// The signed number that the first four bytes of `bytes` spell.
pub open spec fn i32_from_le(bytes: Seq<u8>) -> i32
    recommends
        bytes.len() >= 4,
{
    i32_of_bits(u32_from_le(bytes))
}

/// A number of sixteen bits takes two bytes.
pub broadcast proof fn lemma_u16_le_len(x: u16)
    ensures
        #[trigger] u16_le(x).len() == 2,
{
    reveal(u16_le);
}

/// A number of 32 bits takes four bytes.
pub broadcast proof fn lemma_u32_le_len(x: u32)
    ensures
        #[trigger] u32_le(x).len() == 4,
{
    reveal(u32_le);
}

/// A number of 64 bits takes eight bytes.
pub broadcast proof fn lemma_u64_le_len(x: u64)
    ensures
        #[trigger] u64_le(x).len() == 8,
{
    reveal(u64_le);
    lemma_u32_le_len((x % 0x1_0000_0000) as u32);
    lemma_u32_le_len((x / 0x1_0000_0000) as u32);
}

/// The number of bytes that each width takes.
pub broadcast group group_le_len {
    lemma_u16_le_len,
    lemma_u32_le_len,
    lemma_u64_le_len,
}

/// What is read depends on as many leading bytes as the width takes and on
/// nothing behind them.
pub proof fn lemma_from_le_prefix(first: Seq<u8>, second: Seq<u8>)
    ensures
        first.len() >= 2 && second.len() >= 2 && first.take(2) == second.take(2) ==> u16_from_le(
            first,
        ) == u16_from_le(second),
        first.len() >= 4 && second.len() >= 4 && first.take(4) == second.take(4) ==> u32_from_le(
            first,
        ) == u32_from_le(second) && i32_from_le(first) == i32_from_le(second),
        first.len() >= 8 && second.len() >= 8 && first.take(8) == second.take(8) ==> u64_from_le(
            first,
        ) == u64_from_le(second),
{
    reveal(u16_from_le);
    reveal(u32_from_le);
    reveal(u64_from_le);
    if first.len() >= 2 && second.len() >= 2 && first.take(2) == second.take(2) {
        assert(first[0] == first.take(2)[0] && first[1] == first.take(2)[1]);
        assert(second[0] == second.take(2)[0] && second[1] == second.take(2)[1]);
    }
    if first.len() >= 4 && second.len() >= 4 && first.take(4) == second.take(4) {
        assert(forall|i: int| 0 <= i < 4 ==> first[i] == first.take(4)[i]);
        assert(forall|i: int| 0 <= i < 4 ==> second[i] == second.take(4)[i]);
    }
    if first.len() >= 8 && second.len() >= 8 && first.take(8) == second.take(8) {
        assert(forall|i: int| 0 <= i < 8 ==> first[i] == first.take(8)[i]);
        assert(forall|i: int| 0 <= i < 8 ==> second[i] == second.take(8)[i]);
        assert(forall|i: int| 0 <= i < 4 ==> first.skip(4)[i] == first[i + 4]);
        assert(forall|i: int| 0 <= i < 4 ==> second.skip(4)[i] == second[i + 4]);
    }
}

/// Two bytes written from a number spell that number, whatever follows them.
pub proof fn lemma_u16_le_round_trip(x: u16, rest: Seq<u8>)
    ensures
        u16_le(x).len() == 2,
        u16_from_le(u16_le(x) + rest) == x,
{
    reveal(u16_le);
    reveal(u16_from_le);
}

/// Four bytes written from a number spell that number, whatever follows them.
pub proof fn lemma_u32_le_round_trip(x: u32, rest: Seq<u8>)
    ensures
        u32_le(x).len() == 4,
        u32_from_le(u32_le(x) + rest) == x,
{
    reveal(u32_le);
    reveal(u32_from_le);
}

/// Eight bytes written from a number spell that number, whatever follows
/// them.
pub proof fn lemma_u64_le_round_trip(x: u64, rest: Seq<u8>)
    ensures
        u64_le(x).len() == 8,
        u64_from_le(u64_le(x) + rest) == x,
{
    reveal(u64_le);
    reveal(u64_from_le);
    let lo = (x % 0x1_0000_0000) as u32;
    let hi = (x / 0x1_0000_0000) as u32;
    let bytes = u64_le(x) + rest;
    lemma_u32_le_round_trip(lo, u32_le(hi) + rest);
    lemma_u32_le_round_trip(hi, rest);
    assert(bytes =~= u32_le(lo) + (u32_le(hi) + rest));
    assert(bytes.skip(4) =~= u32_le(hi) + rest);
}

/// Four bytes written from a signed number spell that number, whatever
/// follows them.
pub proof fn lemma_i32_le_round_trip(x: i32, rest: Seq<u8>)
    ensures
        i32_le(x).len() == 4,
        i32_from_le(i32_le(x) + rest) == x,
{
    lemma_u32_le_round_trip(i32_bits(x), rest);
}

/// Appends the two bytes of `x` to `out`.
pub fn put_u16_le(out: &mut Vec<u8>, x: u16)
    ensures
        final(out)@ == old(out)@ + u16_le(x),
{
    out.push((x % 0x100) as u8);
    out.push((x / 0x100) as u8);
    assert(out@ =~= old(out)@ + u16_le(x)) by {
        reveal(u16_le);
    }
}

/// Appends the four bytes of `x` to `out`.
pub fn put_u32_le(out: &mut Vec<u8>, x: u32)
    ensures
        final(out)@ == old(out)@ + u32_le(x),
{
    out.push((x % 0x100) as u8);
    out.push((x / 0x100 % 0x100) as u8);
    out.push((x / 0x1_0000 % 0x100) as u8);
    out.push((x / 0x100_0000) as u8);
    assert(out@ =~= old(out)@ + u32_le(x)) by {
        reveal(u32_le);
    }
}

/// Appends the eight bytes of `x` to `out`.
pub fn put_u64_le(out: &mut Vec<u8>, x: u64)
    ensures
        final(out)@ == old(out)@ + u64_le(x),
{
    put_u32_le(out, (x % 0x1_0000_0000) as u32);
    put_u32_le(out, (x / 0x1_0000_0000) as u32);
    assert(out@ =~= old(out)@ + u64_le(x)) by {
        reveal(u64_le);
    }
}

/// Appends the four bytes of `x`, in two's complement, to `out`.
pub fn put_i32_le(out: &mut Vec<u8>, x: i32)
    ensures
        final(out)@ == old(out)@ + i32_le(x),
{
    let bits: u32 = if x >= 0 {
        x as u32
    } else {
        (x as i64 + 0x1_0000_0000) as u32
    };
    put_u32_le(out, bits);
}

/// Reads the two bytes at `at` as a number.
pub fn get_u16_le(bytes: &[u8], at: usize) -> (x: u16)
    requires
        at + 2 <= bytes.len(),
    ensures
        x == u16_from_le(bytes@.skip(at as int)),
{
    proof {
        reveal(u16_from_le);
    }
    bytes[at] as u16 + 0x100 * (bytes[at + 1] as u16)
}

/// Reads the four bytes at `at` as a number.
pub fn get_u32_le(bytes: &[u8], at: usize) -> (x: u32)
    requires
        at + 4 <= bytes.len(),
    ensures
        x == u32_from_le(bytes@.skip(at as int)),
{
    proof {
        reveal(u32_from_le);
    }
    bytes[at] as u32 + 0x100 * (bytes[at + 1] as u32) + 0x1_0000 * (bytes[at + 2] as u32)
        + 0x100_0000 * (bytes[at + 3] as u32)
}

/// Reads the eight bytes at `at` as a number.
pub fn get_u64_le(bytes: &[u8], at: usize) -> (x: u64)
    requires
        at + 8 <= bytes.len(),
    ensures
        x == u64_from_le(bytes@.skip(at as int)),
{
    let lo = get_u32_le(bytes, at);
    let hi = get_u32_le(bytes, at + 4);
    proof {
        reveal(u64_from_le);
    }
    assert(bytes@.skip(at as int).skip(4) =~= bytes@.skip(at + 4));
    lo as u64 + 0x1_0000_0000 * (hi as u64)
}

/// Reads the four bytes at `at` as a signed number in two's complement.
pub fn get_i32_le(bytes: &[u8], at: usize) -> (x: i32)
    requires
        at + 4 <= bytes.len(),
    ensures
        x == i32_from_le(bytes@.skip(at as int)),
{
    let bits = get_u32_le(bytes, at);
    if bits < 0x8000_0000 {
        bits as i32
    } else {
        (bits as i64 - 0x1_0000_0000) as i32
    }
}

/// Appends `bytes` to `out`.
pub fn put_bytes(out: &mut Vec<u8>, bytes: &[u8])
    ensures
        final(out)@ == old(out)@ + bytes@,
{
    let mut copy = vstd::slice::slice_to_vec(bytes);
    out.append(&mut copy);
}

/// Puts `bytes` in the place of the bytes of `out` from `at` on.
pub fn put_bytes_at(out: &mut Vec<u8>, at: usize, bytes: &[u8])
    requires
        at + bytes.len() <= old(out).len(),
    ensures
        final(out)@ == old(out)@.take(at as int) + bytes@ + old(out)@.skip(at + bytes.len()),
{
    let count = bytes.len();
    let mut done: usize = 0;
    assert(out@ =~= old(out)@.take(at as int) + bytes@.take(0) + old(out)@.skip(at as int));
    while done < count
        invariant
            count == bytes.len(),
            at + count <= old(out).len(),
            done <= count,
            out@ == old(out)@.take(at as int) + bytes@.take(done as int) + old(out)@.skip(
                at + done,
            ),
        decreases count - done,
    {
        out[at + done] = bytes[done];
        done = done + 1;
        assert(out@ =~= old(out)@.take(at as int) + bytes@.take(done as int) + old(out)@.skip(
            at + done,
        ));
    }
    assert(bytes@.take(count as int) =~= bytes@);
}

} // verus!
