//! Reading a header and an index record out of raw bytes.

use vstd::prelude::*;
use vstd::slice::{slice_subrange, slice_to_vec};

use crate::error::{Error, ErrorView, ParseFault};
use crate::iro_entry::{entry_bytes, entry_size, FileFlags, IroEntry, IroEntryView};
use crate::iro_header::{
    header_bytes, IroFlags, IroHeader, IroVersion, IRO_HEADER_SIZE_FIELD, IRO_SIG,
};
use crate::wire::{
    get_i32_le, get_u16_le, get_u32_le, get_u64_le, i32_from_le, i32_le, lemma_i32_le_round_trip,
    group_le_len, lemma_u16_le_round_trip, lemma_u32_le_round_trip, lemma_u64_le_round_trip,
    u16_from_le, u16_le, u32_from_le, u32_le, u64_from_le, u64_le,
};

verus! {

/// What a header is read as. The signature is checked first and the size
/// field, which must hold [`IRO_HEADER_SIZE_FIELD`], after version and flags
/// are read; only a header that is complete has its version, and then its
/// flags, looked up.
pub open spec fn parse_header(bytes: Seq<u8>) -> Result<(Seq<u8>, IroHeader), ErrorView> {
    if bytes.len() < 4 || i32_from_le(bytes) != IRO_SIG {
        Err(ErrorView::CannotParseBinary(ParseFault::Tag))
    } else if bytes.len() < 12 {
        Err(ErrorView::CannotParseBinary(ParseFault::Eof))
    } else if bytes.len() < 16 || i32_from_le(bytes.skip(12)) != IRO_HEADER_SIZE_FIELD {
        Err(ErrorView::CannotParseBinary(ParseFault::Tag))
    } else if bytes.len() < 20 {
        Err(ErrorView::CannotParseBinary(ParseFault::Eof))
    } else {
        let version = i32_from_le(bytes.skip(4));
        let flags = i32_from_le(bytes.skip(8));
        match (IroVersion::of_code(version), IroFlags::of_code(flags)) {
            (None, _) => Err(ErrorView::InvalidIroVersion(version)),
            (Some(_), None) => Err(ErrorView::InvalidIroFlags(flags)),
            (Some(version), Some(flags)) => Ok(
                (
                    bytes.skip(20),
                    IroHeader {
                        version,
                        flags,
                        size: IRO_HEADER_SIZE_FIELD,
                        num_files: u32_from_le(bytes.skip(16)),
                    },
                ),
            ),
        }
    }
}

/// The number of bytes that the offset takes in a record of `version`.
pub open spec fn offset_width(version: IroVersion) -> nat {
    match version {
        IroVersion::Zero => 4,
        IroVersion::Two => 8,
    }
}

/// The number of bytes of the record, without its length prefix, that opens
/// `bytes`, as far as its path length can be read.
pub open spec fn entry_body_size(version: IroVersion, bytes: Seq<u8>) -> nat
    recommends
        bytes.len() >= 2,
{
    2 + u16_from_le(bytes) as nat + 4 + offset_width(version) + 4
}

/// What a record, without its length prefix, is read as. The bytes must hold
/// the whole record before the compression flag is looked up.
pub open spec fn parse_entry(version: IroVersion, bytes: Seq<u8>) -> Result<
    (Seq<u8>, IroEntryView),
    ErrorView,
> {
    if bytes.len() < 2 || bytes.len() < entry_body_size(version, bytes) {
        Err(ErrorView::CannotParseBinary(ParseFault::Eof))
    } else {
        let path_len = u16_from_le(bytes) as int;
        let flags = i32_from_le(bytes.skip(2 + path_len));
        let offset = match version {
            IroVersion::Zero => u32_from_le(bytes.skip(6 + path_len)) as u64,
            IroVersion::Two => u64_from_le(bytes.skip(6 + path_len)),
        };
        let data_len = u32_from_le(bytes.skip(6 + path_len + offset_width(version)));
        match FileFlags::of_code(flags) {
            None => Err(ErrorView::InvalidFileFlags(flags)),
            Some(flags) => Ok(
                (
                    bytes.skip(entry_body_size(version, bytes) as int),
                    IroEntryView { path: bytes.subrange(2, 2 + path_len), flags, offset, data_len },
                ),
            ),
        }
    }
}

/// Reads the header that opens `bytes` and hands back the bytes behind it.
pub fn parse_iro_header_v2(bytes: &[u8]) -> (r: Result<(&[u8], IroHeader), Error>)
    ensures
        (match r {
            Ok((rest, header)) => parse_header(bytes@) == Ok::<_, ErrorView>((rest@, header)),
            Err(e) => parse_header(bytes@) == Err::<(Seq<u8>, IroHeader), _>(e@),
        }),
{
    let len = bytes.len();
    assert(bytes@.skip(0) =~= bytes@);
    if len < 4 || get_i32_le(bytes, 0) != IRO_SIG {
        return Err(Error::CannotParseBinary(ParseFault::Tag));
    }
    if len < 12 {
        return Err(Error::CannotParseBinary(ParseFault::Eof));
    }
    let version = get_i32_le(bytes, 4);
    let flags = get_i32_le(bytes, 8);
    if len < 16 || get_i32_le(bytes, 12) != IRO_HEADER_SIZE_FIELD {
        return Err(Error::CannotParseBinary(ParseFault::Tag));
    }
    if len < 20 {
        return Err(Error::CannotParseBinary(ParseFault::Eof));
    }
    let num_files = get_u32_le(bytes, 16);
    let version = match IroVersion::try_from(version) {
        Ok(version) => version,
        Err(e) => {
            return Err(e);
        },
    };
    let flags = match IroFlags::try_from(flags) {
        Ok(flags) => flags,
        Err(e) => {
            return Err(e);
        },
    };
    let rest = slice_subrange(bytes, 20, len);
    assert(rest@ =~= bytes@.skip(20));
    Ok((rest, IroHeader::new(version, flags, IRO_HEADER_SIZE_FIELD, num_files)))
}

/// Reads the record, without its length prefix, that opens `bytes`, with the
/// offset as wide as the version of `header` asks, and hands back the bytes
/// behind it.
pub fn parse_iro_entry_v2<'a>(header: &IroHeader, bytes: &'a [u8]) -> (r: Result<
    (&'a [u8], IroEntry),
    Error,
>)
    ensures
        (match r {
            Ok((rest, entry)) => parse_entry(header.version, bytes@) == Ok::<_, ErrorView>(
                (rest@, entry@),
            ),
            Err(e) => parse_entry(header.version, bytes@) == Err::<(Seq<u8>, IroEntryView), _>(
                e@,
            ),
        }),
{
    let len = bytes.len();
    if len < 2 {
        return Err(Error::CannotParseBinary(ParseFault::Eof));
    }
    assert(bytes@.skip(0) =~= bytes@);
    let path_len = get_u16_le(bytes, 0) as usize;
    let wide = header.version == IroVersion::Two;
    let width: usize = if wide { 8 } else { 4 };
    if len - 2 < path_len + 8 + width {
        return Err(Error::CannotParseBinary(ParseFault::Eof));
    }
    let path = slice_to_vec(slice_subrange(bytes, 2, 2 + path_len));
    let flags = get_i32_le(bytes, 2 + path_len);
    let offset = if wide {
        get_u64_le(bytes, 6 + path_len)
    } else {
        get_u32_le(bytes, 6 + path_len) as u64
    };
    let data_len = get_u32_le(bytes, 6 + path_len + width);
    let flags = match FileFlags::try_from(flags) {
        Ok(flags) => flags,
        Err(e) => {
            return Err(e);
        },
    };
    let end = 10 + path_len + width;
    let rest = slice_subrange(bytes, end, len);
    assert(rest@ =~= bytes@.skip(end as int));
    Ok((rest, IroEntry::new(path, flags, offset, data_len)))
}

/// A header that is written and read again is the same header but for its
/// size, which is read as [`IRO_HEADER_SIZE_FIELD`], and the bytes that
/// follow it are handed back.
pub proof fn lemma_header_round_trip(header: IroHeader, rest: Seq<u8>)
    ensures
        header_bytes(header).len() == 20,
        parse_header(header_bytes(header) + rest) == Ok::<_, ErrorView>(
            (rest, IroHeader { size: IRO_HEADER_SIZE_FIELD, ..header }),
        ),
{
    let bytes = header_bytes(header) + rest;
    let tail4 = u32_le(header.num_files) + rest;
    let tail3 = i32_le(IRO_HEADER_SIZE_FIELD) + tail4;
    let tail2 = i32_le(header.flags.spec_code()) + tail3;
    let tail1 = i32_le(header.version.spec_code()) + tail2;
    lemma_i32_le_round_trip(IRO_SIG, tail1);
    lemma_i32_le_round_trip(header.version.spec_code(), tail2);
    lemma_i32_le_round_trip(header.flags.spec_code(), tail3);
    lemma_i32_le_round_trip(IRO_HEADER_SIZE_FIELD, tail4);
    lemma_u32_le_round_trip(header.num_files, rest);
    assert(bytes =~= i32_le(IRO_SIG) + tail1);
    assert(bytes.skip(4) =~= tail1);
    assert(bytes.skip(8) =~= tail2);
    assert(bytes.skip(12) =~= tail3);
    assert(bytes.skip(16) =~= tail4);
    assert(bytes.skip(20) =~= rest);
}

/// The bytes of a record piece by piece, with `rest` behind them.
proof fn lemma_entry_layout(entry: IroEntryView, rest: Seq<u8>)
    ensures
        entry_bytes(entry) + rest == u16_le((entry_size(entry.path.len()) % 0x1_0000) as u16) + (
        u16_le((entry.path.len() % 0x1_0000) as u16) + (entry.path + (i32_le(
            entry.flags.spec_code(),
        ) + (u64_le(entry.offset) + (u32_le(entry.data_len) + rest))))),
        entry_bytes(entry).len() == entry_size(entry.path.len()),
{
    broadcast use group_le_len;
    assert(entry_bytes(entry) + rest =~= u16_le((entry_size(entry.path.len()) % 0x1_0000) as u16)
        + (u16_le((entry.path.len() % 0x1_0000) as u16) + (entry.path + (i32_le(
        entry.flags.spec_code(),
    ) + (u64_le(entry.offset) + (u32_le(entry.data_len) + rest))))));
}

/// What is read from bytes that hold, one after the other, a path length, a
/// path, a flag, an offset as wide as the version asks and a data length.
proof fn lemma_parse_entry_fields(
    version: IroVersion,
    body: Seq<u8>,
    entry: IroEntryView,
    tail1: Seq<u8>,
    tail2: Seq<u8>,
    tail3: Seq<u8>,
    tail4: Seq<u8>,
    rest: Seq<u8>,
)
    requires
        entry.path.len() <= 0xFFFF,
        body.len() == 10 + offset_width(version) + entry.path.len() + rest.len(),
        u16_from_le(body) == entry.path.len(),
        body.skip(2) == tail1,
        tail1.take(entry.path.len() as int) == entry.path,
        tail1.skip(entry.path.len() as int) == tail2,
        i32_from_le(tail2) == entry.flags.spec_code(),
        tail2.skip(4) == tail3,
        version == IroVersion::Two ==> u64_from_le(tail3) == entry.offset,
        version == IroVersion::Zero ==> u32_from_le(tail3) == entry.offset,
        tail3.skip(offset_width(version) as int) == tail4,
        u32_from_le(tail4) == entry.data_len,
        tail4.skip(4) == rest,
    ensures
        parse_entry(version, body) == Ok::<_, ErrorView>((rest, entry)),
{
    let n = entry.path.len() as int;
    let w = offset_width(version) as int;
    assert(body.skip(2 + n) =~= tail2);
    assert(body.skip(6 + n) =~= tail3);
    assert(body.skip(6 + n + w) =~= tail4);
    assert(body.skip(10 + n + w) =~= rest);
    assert(body.subrange(2, 2 + n) =~= entry.path);
}

/// Cutting a sequence where its first part ends gives the two parts back.
proof fn lemma_split<A>(first: Seq<A>, second: Seq<A>)
    ensures
        (first + second).take(first.len() as int) == first,
        (first + second).skip(first.len() as int) == second,
{
    assert((first + second).take(first.len() as int) =~= first);
    assert((first + second).skip(first.len() as int) =~= second);
}

/// A record that is written and read again, as one of the newer version, is
/// the same record, and the bytes that follow it are handed back. The length
/// that the record opens with is its own; this holds of a record that fits
/// the sixteen bits of that length.
pub proof fn lemma_entry_round_trip(entry: IroEntryView, rest: Seq<u8>)
    requires
        entry_size(entry.path.len()) <= 0xFFFF,
    ensures
        entry_bytes(entry).len() == entry_size(entry.path.len()),
        u16_from_le(entry_bytes(entry) + rest) == entry_size(entry.path.len()),
        parse_entry(IroVersion::Two, (entry_bytes(entry) + rest).skip(2)) == Ok::<_, ErrorView>(
            (rest, entry),
        ),
{
    let total = (entry_size(entry.path.len()) % 0x1_0000) as u16;
    let short = (entry.path.len() % 0x1_0000) as u16;
    let tail4 = u32_le(entry.data_len) + rest;
    let tail3 = u64_le(entry.offset) + tail4;
    let tail2 = i32_le(entry.flags.spec_code()) + tail3;
    let tail1 = entry.path + tail2;
    let body = u16_le(short) + tail1;
    lemma_entry_layout(entry, rest);
    lemma_u16_le_round_trip(total, body);
    lemma_u16_le_round_trip(short, tail1);
    lemma_i32_le_round_trip(entry.flags.spec_code(), tail3);
    lemma_u64_le_round_trip(entry.offset, tail4);
    lemma_u32_le_round_trip(entry.data_len, rest);
    lemma_split(u16_le(total), body);
    lemma_split(u16_le(short), tail1);
    lemma_split(entry.path, tail2);
    lemma_split(i32_le(entry.flags.spec_code()), tail3);
    lemma_split(u64_le(entry.offset), tail4);
    lemma_split(u32_le(entry.data_len), rest);
    lemma_parse_entry_fields(IroVersion::Two, body, entry, tail1, tail2, tail3, tail4, rest);
}

/// The bytes of a record as the older version lays it out: as
/// [`entry_bytes`], but with the offset in four bytes. This library reads such
/// records and never writes them.
pub open spec fn narrow_entry_bytes(entry: IroEntryView) -> Seq<u8> {
    u16_le(((entry.path.len() + 16) % 0x1_0000) as u16) + u16_le(
        (entry.path.len() % 0x1_0000) as u16,
    ) + entry.path + i32_le(entry.flags.spec_code()) + u32_le(
        (entry.offset % 0x1_0000_0000) as u32,
    ) + u32_le(entry.data_len)
}

/// A record that is laid out as the older version has it is read, as one of
/// that version, as the same record. This holds of a record that fits the
/// sixteen bits of its length and whose offset fits 32 bits.
pub proof fn lemma_narrow_entry_round_trip(entry: IroEntryView, rest: Seq<u8>)
    requires
        entry.path.len() + 16 <= 0xFFFF,
        entry.offset <= u32::MAX,
    ensures
        narrow_entry_bytes(entry).len() == entry.path.len() + 16,
        u16_from_le(narrow_entry_bytes(entry) + rest) == entry.path.len() + 16,
        parse_entry(IroVersion::Zero, (narrow_entry_bytes(entry) + rest).skip(2)) == Ok::<
            _,
            ErrorView,
        >((rest, entry)),
{
    broadcast use group_le_len;
    let total = ((entry.path.len() + 16) % 0x1_0000) as u16;
    let short = (entry.path.len() % 0x1_0000) as u16;
    let narrow = (entry.offset % 0x1_0000_0000) as u32;
    let tail4 = u32_le(entry.data_len) + rest;
    let tail3 = u32_le(narrow) + tail4;
    let tail2 = i32_le(entry.flags.spec_code()) + tail3;
    let tail1 = entry.path + tail2;
    let body = u16_le(short) + tail1;
    assert(narrow_entry_bytes(entry) + rest =~= u16_le(total) + body);
    lemma_u16_le_round_trip(total, body);
    lemma_u16_le_round_trip(short, tail1);
    lemma_i32_le_round_trip(entry.flags.spec_code(), tail3);
    lemma_u32_le_round_trip(narrow, tail4);
    lemma_u32_le_round_trip(entry.data_len, rest);
    lemma_split(u16_le(total), body);
    lemma_split(u16_le(short), tail1);
    lemma_split(entry.path, tail2);
    lemma_split(i32_le(entry.flags.spec_code()), tail3);
    lemma_split(u32_le(narrow), tail4);
    lemma_split(u32_le(entry.data_len), rest);
    lemma_parse_entry_fields(IroVersion::Zero, body, entry, tail1, tail2, tail3, tail4, rest);
}

} // verus!
