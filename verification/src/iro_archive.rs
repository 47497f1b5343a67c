//! Reading an archive that is held in memory: the header, the index and, entry
//! by entry, the payload.

use vstd::prelude::*;
use vstd::slice::slice_subrange;

use crate::compression::{decoded, decompress, ends_as};
use crate::error::{Error, ErrorView, IoError, IoErrorView};
pub use crate::iro_entry::IroEntry;
use crate::iro_entry::IroEntryView;
pub use crate::iro_header::IroHeader;
use crate::iro_header::{IroVersion, IRO_HEADER_BYTE_SIZE};
use crate::iro_parser::{parse_entry, parse_header, parse_iro_entry_v2, parse_iro_header_v2};
use crate::wire::{get_u16_le, lemma_from_le_prefix, u16_from_le};

verus! {

/// The bytes of an archive and a cursor into them. Reading moves the cursor;
/// the bytes never change.
pub struct IroArchive {
    stream: Vec<u8>,
    position: u64,
}

/// Where the cursor stands after an attempt to read `count` bytes at
/// `position`: behind them if they are all there, else at the end of the
/// source, or where it was if that lies further on.
pub open spec fn after_read(source: Seq<u8>, position: nat, count: nat) -> nat {
    if position + count <= source.len() {
        position + count
    } else if position <= source.len() {
        source.len()
    } else {
        position
    }
}

/// What reading a header at `position` yields.
pub open spec fn header_read(source: Seq<u8>, position: nat) -> Result<IroHeader, ErrorView> {
    if position + IRO_HEADER_BYTE_SIZE > source.len() {
        Err(ErrorView::Io(IoErrorView::UnexpectedEof))
    } else {
        match parse_header(source.subrange(position as int, position + IRO_HEADER_BYTE_SIZE)) {
            Ok((_, header)) => Ok(header),
            Err(e) => Err(e),
        }
    }
}

/// The number of bytes that follow a length prefix which says `total`: the
/// prefix counts itself, and one that says less than its own two bytes is
/// followed by none.
pub open spec fn body_size(total: u16) -> nat {
    if total >= 2 {
        (total - 2) as nat
    } else {
        0
    }
}

/// What reading one record at `position` yields, and where the cursor stands
/// afterwards.
pub open spec fn entry_read(source: Seq<u8>, position: nat, version: IroVersion) -> (
    Result<IroEntryView, ErrorView>,
    nat,
) {
    if position + 2 > source.len() {
        (Err(ErrorView::Io(IoErrorView::UnexpectedEof)), after_read(source, position, 2))
    } else {
        let body = body_size(u16_from_le(source.skip(position as int)));
        if position + 2 + body > source.len() {
            (Err(ErrorView::Io(IoErrorView::UnexpectedEof)), source.len())
        } else {
            (
                match parse_entry(
                    version,
                    source.subrange(position as int + 2, position as int + 2 + body),
                ) {
                    Ok((_, entry)) => Ok(entry),
                    Err(e) => Err(e),
                },
                position + 2 + body,
            )
        }
    }
}

/// What reading `count` records one after the other from `position` yields,
/// and where the cursor stands afterwards. The first record that cannot be
/// read ends the reading.
pub open spec fn entries_read(source: Seq<u8>, position: nat, version: IroVersion, count: nat) -> (
    Result<Seq<IroEntryView>, ErrorView>,
    nat,
)
    decreases count,
{
    if count == 0 {
        (Ok(Seq::empty()), position)
    } else {
        match entry_read(source, position, version) {
            (Err(e), end) => (Err(e), end),
            (Ok(entry), next) => match entries_read(source, next, version, (count - 1) as nat) {
                (Ok(rest), end) => (Ok(seq![entry] + rest), end),
                (Err(e), end) => (Err(e), end),
            },
        }
    }
}

/// The records read so far in front of what the rest of the reading yields.
pub open spec fn read_on(
    done: Seq<IroEntryView>,
    rest: (Result<Seq<IroEntryView>, ErrorView>, nat),
) -> (Result<Seq<IroEntryView>, ErrorView>, nat) {
    match rest {
        (Ok(entries), end) => (Ok(done + entries), end),
        (Err(e), end) => (Err(e), end),
    }
}

/// The part of the source that an entry points at: the bytes from `offset`
/// on, `data_len` of them or as many as the source still holds.
pub open spec fn payload_window(source: Seq<u8>, offset: u64, data_len: u32) -> Seq<u8> {
    if offset >= source.len() {
        Seq::empty()
    } else if offset + data_len >= source.len() {
        source.skip(offset as int)
    } else {
        source.subrange(offset as int, offset + data_len)
    }
}

/// The path of a record that was read from an archive fits sixteen bits.
pub proof fn lemma_entries_read_paths(
    source: Seq<u8>,
    position: nat,
    version: IroVersion,
    count: nat,
)
    ensures
        entries_read(source, position, version, count).0 is Ok ==> forall|i: int|
            0 <= i < entries_read(source, position, version, count).0->Ok_0.len() ==> (
            #[trigger] entries_read(source, position, version, count).0->Ok_0[i]).path.len()
                <= 0xFFFF,
    decreases count,
{
    if count > 0 {
        let first = entry_read(source, position, version);
        if first.0 is Ok {
            lemma_entries_read_paths(source, first.1, version, (count - 1) as nat);
        }
    }
}

impl IroArchive {
    /// The bytes of the archive.
    pub closed spec fn source(&self) -> Seq<u8> {
        self.stream@
    }

    /// Where the next read starts.
    pub closed spec fn cursor(&self) -> nat {
        self.position as nat
    }

    /// Takes the bytes of an archive, with the cursor at their start. Nothing
    /// is read yet.
    pub fn open(stream: Vec<u8>) -> (archive: Self)
        ensures
            archive.source() == stream@,
            archive.cursor() == 0,
    {
        IroArchive { stream, position: 0 }
    }

    /// The bytes from the cursor on, `count` of them, if the source holds as
    /// many; the cursor moves as [`after_read`] says.
    fn read_exact(&mut self, count: usize) -> (r: Option<&[u8]>)
        ensures
            final(self).source() == old(self).source(),
            final(self).cursor() == after_read(
                old(self).source(),
                old(self).cursor(),
                count as nat,
            ),
            old(self).cursor() + count <= old(self).source().len() ==> r is Some && r->0@
                == old(self).source().subrange(
                old(self).cursor() as int,
                old(self).cursor() + count,
            ),
            old(self).cursor() + count > old(self).source().len() ==> r is None,
    {
        let len = self.stream.len();
        if self.position > len as u64 {
            return None;
        }
        let start = self.position as usize;
        if len - start < count {
            self.position = len as u64;
            return None;
        }
        self.position = (start + count) as u64;
        Some(slice_subrange(self.stream.as_slice(), start, start + count))
    }

    /// Reads the header at the cursor. A source that ends within the next
    /// twenty bytes is reported as ended too early.
    pub fn read_header(&mut self) -> (r: Result<IroHeader, Error>)
        ensures
            final(self).source() == old(self).source(),
            final(self).cursor() == after_read(
                old(self).source(),
                old(self).cursor(),
                IRO_HEADER_BYTE_SIZE as nat,
            ),
            (match r {
                Ok(header) => header_read(old(self).source(), old(self).cursor()) == Ok::<
                    _,
                    ErrorView,
                >(header),
                Err(e) => header_read(old(self).source(), old(self).cursor()) == Err::<
                    IroHeader,
                    _,
                >(e@),
            }),
    {
        match self.read_exact(IRO_HEADER_BYTE_SIZE) {
            None => Err(Error::Io(IoError::UnexpectedEof)),
            Some(iro_header_bytes) => match parse_iro_header_v2(iro_header_bytes) {
                Ok((_, iro_header)) => Ok(iro_header),
                Err(e) => Err(e),
            },
        }
    }

    /// Reads as many records as `iro_header` counts, one after the other from
    /// the cursor on: a length of two bytes, then the record that it
    /// announces. A source that ends before the last of them is reported as
    /// ended too early.
    pub fn read_iro_entries(&mut self, iro_header: &IroHeader) -> (r: Result<Vec<IroEntry>, Error>)
        ensures
            final(self).source() == old(self).source(),
            final(self).cursor() == entries_read(
                old(self).source(),
                old(self).cursor(),
                iro_header.version,
                iro_header.num_files as nat,
            ).1,
            (match r {
                Ok(entries) => entries_read(
                    old(self).source(),
                    old(self).cursor(),
                    iro_header.version,
                    iro_header.num_files as nat,
                ).0 == Ok::<_, ErrorView>(entries.deep_view()),
                Err(e) => entries_read(
                    old(self).source(),
                    old(self).cursor(),
                    iro_header.version,
                    iro_header.num_files as nat,
                ).0 == Err::<Seq<IroEntryView>, _>(e@),
            }),
    {
        let ghost source = self.source();
        let ghost start = self.cursor();
        let ghost version = iro_header.version;
        let ghost count = iro_header.num_files as nat;
        let mut iro_entries: Vec<IroEntry> = Vec::new();
        let mut done: u32 = 0;
        assert(iro_entries.deep_view() =~= Seq::<IroEntryView>::empty());
        assert(entries_read(source, start, version, count) == read_on(
            Seq::empty(),
            entries_read(source, start, version, count),
        )) by {
            let whole = entries_read(source, start, version, count);
            if whole.0 is Ok {
                assert(Seq::<IroEntryView>::empty() + whole.0->Ok_0 =~= whole.0->Ok_0);
            }
        }
        while done < iro_header.num_files
            invariant
                source == old(self).source(),
                start == old(self).cursor(),
                self.source() == source,
                version == iro_header.version,
                count == iro_header.num_files,
                done <= iro_header.num_files,
                entries_read(source, start, version, count) == read_on(
                    iro_entries.deep_view(),
                    entries_read(source, self.cursor(), version, (count - done) as nat),
                ),
            decreases iro_header.num_files - done,
        {
            let ghost at = self.cursor();
            let ghost before = iro_entries.deep_view();
            let entry_len = match self.read_exact(2) {
                None => {
                    return Err(Error::Io(IoError::UnexpectedEof));
                },
                Some(entry_len_bytes) => {
                    assert(entry_len_bytes@.skip(0) =~= entry_len_bytes@);
                    proof {
                        assert(entry_len_bytes@.take(2) =~= source.skip(at as int).take(2));
                        lemma_from_le_prefix(entry_len_bytes@, source.skip(at as int));
                    }
                    get_u16_le(entry_len_bytes, 0)
                },
            };
            let body: usize = if entry_len >= 2 {
                (entry_len - 2) as usize
            } else {
                0
            };
            let iro_entry = match self.read_exact(body) {
                None => {
                    return Err(Error::Io(IoError::UnexpectedEof));
                },
                Some(entry_bytes) => match parse_iro_entry_v2(iro_header, entry_bytes) {
                    Ok((_, iro_entry)) => iro_entry,
                    Err(e) => {
                        return Err(e);
                    },
                },
            };
            proof {
                let rest = entries_read(source, self.cursor(), version, (count - done - 1) as nat);
                assert(iro_entries.deep_view().push(iro_entry@) =~= before.push(iro_entry@));
                if rest.0 is Ok {
                    assert(before + (seq![iro_entry@] + rest.0->Ok_0) =~= before.push(iro_entry@)
                        + rest.0->Ok_0);
                }
            }
            let ghost pushed = iro_entry@;
            iro_entries.push(iro_entry);
            assert(iro_entries.deep_view() =~= before.push(pushed));
            done = done + 1;
        }
        assert(iro_entries.deep_view() + Seq::<IroEntryView>::empty() =~= iro_entries.deep_view());
        Ok(iro_entries)
    }

    /// Moves the cursor to the payload of `iro_entry` and decodes it, by the
    /// method that the entry names, behind what `writer` holds. The payload is
    /// cut off where the source ends. The cursor is left behind the payload.
    pub fn seek_and_read_file_entry(&mut self, iro_entry: &IroEntry, writer: &mut Vec<u8>) -> (r:
        Result<(), Error>)
        ensures
            final(self).source() == old(self).source(),
            final(self).cursor() == iro_entry.offset + payload_window(
                old(self).source(),
                iro_entry.offset,
                iro_entry.data_len,
            ).len(),
            final(writer)@ == old(writer)@ + decoded(
                iro_entry.flags,
                payload_window(old(self).source(), iro_entry.offset, iro_entry.data_len),
            ).bytes,
            ends_as(
                r,
                decoded(
                    iro_entry.flags,
                    payload_window(old(self).source(), iro_entry.offset, iro_entry.data_len),
                ),
            ),
    {
        let len = self.stream.len();
        let (start, count): (usize, usize) = if iro_entry.offset >= len as u64 {
            self.position = iro_entry.offset;
            (len, 0)
        } else {
            let start = iro_entry.offset as usize;
            let count = if iro_entry.data_len as u64 >= (len - start) as u64 {
                len - start
            } else {
                iro_entry.data_len as usize
            };
            self.position = (start + count) as u64;
            (start, count)
        };
        let entry_buffer = slice_subrange(self.stream.as_slice(), start, start + count);
        assert(entry_buffer@ =~= payload_window(
            self.source(),
            iro_entry.offset,
            iro_entry.data_len,
        ));
        decompress(iro_entry.flags, entry_buffer, writer)
    }
}

} // verus!
