//! What holds of packing and unpacking together.

use vstd::prelude::*;

use crate::error::ErrorView;
use crate::iro_archive::{entries_read, header_read, payload_window};
use crate::iro_entry::{entry_bytes, entry_size, IroEntryView};
use crate::iro_header::{
    header_bytes, IroFlags, IroHeader, IroVersion, IRO_HEADER_BYTE_SIZE, IRO_HEADER_SIZE_FIELD,
};
use crate::iro_parser::{
    lemma_entry_round_trip, lemma_header_round_trip, lemma_narrow_entry_round_trip,
    narrow_entry_bytes,
};
use crate::pack::{
    archive_bytes, file_selected, index_bytes, index_size, kept, lemma_index_len, packed,
    packed_entry, packed_header, payload, payload_offset, ArchiveFileView,
};
use crate::path_codec::{lemma_path_round_trip, path_bytes, replaced};
use crate::unpack::{entries_unpacked, entry_unpacked, unpacked};
use crate::wire::lemma_from_le_prefix;

verus! {

/// Whether the format can hold `files`: their number fits 32 bits, the record
/// of each fits the 16 bits of its length prefix, the content of each fits 32
/// bits, and the whole archive fits the 64 bits of an offset.
pub open spec fn representable(files: Seq<ArchiveFileView>) -> bool {
    &&& files.len() <= u32::MAX
    &&& forall|i: int|
        0 <= i < files.len() ==> entry_size(path_bytes((#[trigger] files[i]).path).len()) <= 0xFFFF
    &&& forall|i: int| 0 <= i < files.len() ==> (#[trigger] files[i]).data.len() <= u32::MAX
    &&& IRO_HEADER_BYTE_SIZE + index_size(files) + payload(files).len() <= u64::MAX
}

/// `file` as it comes out of an archive: with `/` for every separator.
pub open spec fn normalized(file: ArchiveFileView) -> ArchiveFileView {
    ArchiveFileView { path: replaced(file.path, '\\', '/'), data: file.data }
}

/// The records of the archive of `files`.
pub open spec fn packed_entries(files: Seq<ArchiveFileView>) -> Seq<IroEntryView> {
    Seq::new(files.len(), |i: int| packed_entry(files, i))
}

/// The contents of all files open with the contents of the first of them,
/// and the content of the next one follows.
pub proof fn lemma_payload_prefix(files: Seq<ArchiveFileView>, first: int)
    requires
        0 <= first <= files.len(),
    ensures
        payload(files.take(first)).len() <= payload(files).len(),
        payload(files).take(payload(files.take(first)).len() as int) == payload(
            files.take(first),
        ),
        first < files.len() ==> payload(files.take(first + 1)) == payload(files.take(first))
            + files[first].data,
    decreases files.len(),
{
    if first < files.len() {
        assert(files.take(first + 1).drop_last() =~= files.take(first));
    }
    if first == files.len() {
        assert(files.take(first) =~= files);
        assert(payload(files).take(payload(files).len() as int) =~= payload(files));
    } else {
        let front = files.drop_last();
        lemma_payload_prefix(front, first);
        assert(front.take(first) =~= files.take(first));
        let cut = payload(files.take(first)).len() as int;
        assert((payload(front) + files.last().data).take(cut) =~= payload(front).take(cut));
    }
}

/// The bytes of a record as `version` lays it out.
pub open spec fn record_bytes(version: IroVersion, entry: IroEntryView) -> Seq<u8> {
    match version {
        IroVersion::Zero => narrow_entry_bytes(entry),
        IroVersion::Two => entry_bytes(entry),
    }
}

/// Whether a record of `version` can hold `entry`: whether the record fits
/// the sixteen bits of its length and the offset the width that the version
/// gives it.
pub open spec fn record_fits(version: IroVersion, entry: IroEntryView) -> bool {
    match version {
        IroVersion::Zero => entry.path.len() + 16 <= 0xFFFF && entry.offset <= u32::MAX,
        IroVersion::Two => entry_size(entry.path.len()) <= 0xFFFF,
    }
}

/// The records of `entries`, as `version` lays them out, one after the other.
pub open spec fn index_of(version: IroVersion, entries: Seq<IroEntryView>) -> Seq<u8>
    decreases entries.len(),
{
    if entries.len() == 0 {
        Seq::empty()
    } else {
        record_bytes(version, entries[0]) + index_of(version, entries.skip(1))
    }
}

/// An index of either version is read back record by record: where the
/// records of `entries` stand one after the other behind `before`, reading as
/// many records as there are yields `entries` and leaves the cursor behind
/// the last of them, whatever follows. This holds of records that fit their
/// version.
pub proof fn lemma_index_read(
    version: IroVersion,
    entries: Seq<IroEntryView>,
    before: Seq<u8>,
    after: Seq<u8>,
)
    requires
        forall|i: int| 0 <= i < entries.len() ==> record_fits(version, #[trigger] entries[i]),
    ensures
        entries_read(
            before + index_of(version, entries) + after,
            before.len(),
            version,
            entries.len(),
        ) == (
            Ok::<_, ErrorView>(entries),
            before.len() + index_of(version, entries).len(),
        ),
    decreases entries.len(),
{
    let source = before + index_of(version, entries) + after;
    if entries.len() == 0 {
        assert(entries =~= Seq::<IroEntryView>::empty());
    } else {
        let entry = entries[0];
        let record = record_bytes(version, entry);
        let others = entries.skip(1);
        let position = before.len() as int;
        assert(record_fits(version, entry));
        match version {
            IroVersion::Zero => {
                lemma_narrow_entry_round_trip(entry, Seq::empty());
            },
            IroVersion::Two => {
                lemma_entry_round_trip(entry, Seq::empty());
            },
        }
        assert(record + Seq::<u8>::empty() =~= record);
        assert(source =~= (before + record) + index_of(version, others) + after);
        assert(source.skip(position).take(2) =~= record.take(2));
        lemma_from_le_prefix(source.skip(position), record);
        assert(source.subrange(position + 2, position + record.len()) =~= record.skip(2));
        assert forall|i: int| 0 <= i < others.len() implies record_fits(
            version,
            #[trigger] others[i],
        ) by {
            assert(others[i] == entries[i + 1]);
        }
        lemma_index_read(version, others, before + record, after);
        assert(seq![entry] + others =~= entries);
    }
}

/// An archive of either version is read as it is laid out: where a header
/// stands in front of the records of as many entries as it counts, unpacking
/// goes by those entries, whatever follows the index. This holds of records
/// that fit their version.
pub proof fn lemma_archive_read(
    header: IroHeader,
    entries: Seq<IroEntryView>,
    rest: Seq<u8>,
    includes: Option<Seq<Seq<char>>>,
    excludes: Option<Seq<Seq<char>>>,
)
    requires
        header.size == IRO_HEADER_SIZE_FIELD,
        header.num_files == entries.len(),
        forall|i: int|
            0 <= i < entries.len() ==> record_fits(header.version, #[trigger] entries[i]),
    ensures
        header_read(header_bytes(header) + index_of(header.version, entries) + rest, 0) == Ok::<
            _,
            ErrorView,
        >(header),
        unpacked(
            header_bytes(header) + index_of(header.version, entries) + rest,
            includes,
            excludes,
        ) == entries_unpacked(
            header_bytes(header) + index_of(header.version, entries) + rest,
            entries,
            includes,
            excludes,
        ),
{
    let source = header_bytes(header) + index_of(header.version, entries) + rest;
    lemma_header_round_trip(header, Seq::empty());
    assert(source.subrange(0, 20) =~= header_bytes(header) + Seq::<u8>::empty());
    lemma_index_read(header.version, entries, header_bytes(header), rest);
}

/// An index with one more record is the index and, behind it, that record.
pub proof fn lemma_index_of_push(
    version: IroVersion,
    entries: Seq<IroEntryView>,
    entry: IroEntryView,
)
    ensures
        index_of(version, entries.push(entry)) == index_of(version, entries) + record_bytes(
            version,
            entry,
        ),
    decreases entries.len(),
{
    let longer = entries.push(entry);
    if entries.len() == 0 {
        assert(longer.skip(1) =~= Seq::<IroEntryView>::empty());
        assert(longer[0] == entry);
        assert(index_of(version, longer.skip(1)) =~= Seq::<u8>::empty());
        assert(index_of(version, longer) =~= record_bytes(version, entry));
        assert(index_of(version, entries) + record_bytes(version, entry) =~= record_bytes(
            version,
            entry,
        ));
    } else {
        lemma_index_of_push(version, entries.skip(1), entry);
        assert(longer.skip(1) =~= entries.skip(1).push(entry));
        assert(longer[0] == entries[0]);
        assert(index_of(version, longer) =~= index_of(version, entries) + record_bytes(
            version,
            entry,
        ));
    }
}

/// The index of a built archive is the records of its files laid out as the
/// newer version has them.
pub proof fn lemma_packed_index(files: Seq<ArchiveFileView>, count: nat)
    requires
        count <= files.len(),
    ensures
        index_bytes(files, count) == index_of(
            IroVersion::Two,
            packed_entries(files).take(count as int),
        ),
    decreases count,
{
    let entries = packed_entries(files);
    if count == 0 {
        assert(entries.take(0) =~= Seq::<IroEntryView>::empty());
    } else {
        lemma_packed_index(files, (count - 1) as nat);
        lemma_index_of_push(IroVersion::Two, entries.take(count - 1), entries[count - 1]);
        assert(entries.take(count - 1).push(entries[count - 1]) =~= entries.take(count as int));
    }
}

/// The length of a built archive, and where its contents start.
pub proof fn lemma_archive_layout(files: Seq<ArchiveFileView>)
    ensures
        archive_bytes(files).len() == IRO_HEADER_BYTE_SIZE + index_size(files) + payload(
            files,
        ).len(),
        archive_bytes(files).skip(IRO_HEADER_BYTE_SIZE + index_size(files)) == payload(files),
{
    lemma_header_round_trip(packed_header(files), Seq::empty());
    lemma_index_len(files, files.len());
    assert(files.take(files.len() as int) =~= files);
    assert(archive_bytes(files).skip(IRO_HEADER_BYTE_SIZE + index_size(files)) =~= payload(files));
}

/// The records of a built archive are read back one after the other, and the
/// cursor is left where the contents start.
pub proof fn lemma_entries_read_packed(files: Seq<ArchiveFileView>)
    requires
        representable(files),
    ensures
        entries_read(
            archive_bytes(files),
            IRO_HEADER_BYTE_SIZE as nat,
            IroVersion::Two,
            files.len(),
        ) == (
            Ok::<_, ErrorView>(packed_entries(files)),
            IRO_HEADER_BYTE_SIZE as nat + index_size(files),
        ),
{
    let entries = packed_entries(files);
    lemma_header_round_trip(packed_header(files), Seq::empty());
    lemma_index_len(files, files.len());
    lemma_packed_index(files, files.len());
    assert(files.take(files.len() as int) =~= files);
    assert(entries.take(files.len() as int) =~= entries);
    lemma_index_read(
        IroVersion::Two,
        entries,
        header_bytes(packed_header(files)),
        payload(files),
    );
}

/// An entry that points at a part of the source has that part as its window.
pub proof fn lemma_payload_window_within(source: Seq<u8>, offset: u64, data_len: u32)
    requires
        offset + data_len <= source.len(),
    ensures
        payload_window(source, offset, data_len) == source.subrange(
            offset as int,
            offset + data_len,
        ),
{
    if offset >= source.len() {
        assert(source.subrange(offset as int, offset + data_len) =~= Seq::<u8>::empty());
    } else if offset + data_len >= source.len() {
        assert(source.skip(offset as int) =~= source.subrange(offset as int, offset + data_len));
    }
}

/// A built archive holds the content of each file at the place that
/// [`payload_offset`] names.
pub proof fn lemma_content_place(files: Seq<ArchiveFileView>, at: int)
    requires
        0 <= at < files.len(),
    ensures
        payload_offset(files, at) + files[at].data.len() <= archive_bytes(files).len(),
        archive_bytes(files).len() == IRO_HEADER_BYTE_SIZE + index_size(files) + payload(
            files,
        ).len(),
        archive_bytes(files).subrange(
            payload_offset(files, at) as int,
            payload_offset(files, at) as int + files[at].data.len(),
        ) == files[at].data,
{
    let source = archive_bytes(files);
    let data = files[at].data;
    lemma_archive_layout(files);
    lemma_payload_prefix(files, at);
    lemma_payload_prefix(files, at + 1);
    let before = payload(files.take(at)).len() as int;
    let after = before + data.len();
    let base = IRO_HEADER_BYTE_SIZE + index_size(files);
    assert(payload(files).subrange(before, after) =~= data) by {
        assert(payload(files).take(after) == payload(files.take(at)) + data);
        assert(payload(files).subrange(before, after) =~= payload(files).take(after).skip(before));
    }
    assert(source.subrange(base + before, base + after) =~= source.skip(base).subrange(
        before,
        after,
    ));
}

/// Cutting a number to a width that it fits leaves the number as it is.
proof fn lemma_cut_exact(offset: nat, len: nat)
    requires
        offset <= u64::MAX,
        len <= u32::MAX,
    ensures
        (offset % 0x1_0000_0000_0000_0000) as u64 == offset,
        (len % 0x1_0000_0000) as u32 == len,
{
}

/// The record of a file in a built archive holds the place and the length of
/// its content as they are.
pub proof fn lemma_packed_entry_exact(files: Seq<ArchiveFileView>, at: int)
    requires
        representable(files),
        0 <= at < files.len(),
    ensures
        packed_entry(files, at).offset == payload_offset(files, at),
        packed_entry(files, at).data_len == files[at].data.len(),
{
    lemma_content_place(files, at);
    let file = files[at];
    assert(file.data.len() <= u32::MAX);
    lemma_cut_exact(payload_offset(files, at), file.data.len());
}

/// The record of a file points at its content.
pub proof fn lemma_payload_window_packed(files: Seq<ArchiveFileView>, at: int)
    requires
        representable(files),
        0 <= at < files.len(),
    ensures
        payload_window(
            archive_bytes(files),
            packed_entry(files, at).offset,
            packed_entry(files, at).data_len,
        ) == files[at].data,
{
    lemma_packed_entry_exact(files, at);
    lemma_content_place(files, at);
    lemma_payload_window_within(
        archive_bytes(files),
        packed_entry(files, at).offset,
        packed_entry(files, at).data_len,
    );
}

/// The record of a file yields the file, with `/` for every separator in its
/// path, unless the lists of the unpacking hold that path back.
pub proof fn lemma_entry_unpacked_packed(
    files: Seq<ArchiveFileView>,
    at: int,
    includes: Option<Seq<Seq<char>>>,
    excludes: Option<Seq<Seq<char>>>,
)
    requires
        representable(files),
        0 <= at < files.len(),
    ensures
        entry_unpacked(archive_bytes(files), packed_entry(files, at), includes, excludes) == Ok::<
            _,
            ErrorView,
        >(
            if file_selected(normalized(files[at]), includes, excludes) {
                Some(normalized(files[at]))
            } else {
                None
            },
        ),
{
    lemma_payload_window_packed(files, at);
    lemma_path_round_trip(files[at].path);
}

/// The records of the files from `at` on yield those of these files that the
/// lists of the unpacking let through.
pub proof fn lemma_entries_unpacked_packed(
    files: Seq<ArchiveFileView>,
    at: int,
    includes: Option<Seq<Seq<char>>>,
    excludes: Option<Seq<Seq<char>>>,
)
    requires
        representable(files),
        0 <= at <= files.len(),
    ensures
        entries_unpacked(archive_bytes(files), packed_entries(files).skip(at), includes, excludes)
            == Ok::<_, ErrorView>(
            kept(
                files.map_values(|file: ArchiveFileView| normalized(file)).skip(at),
                includes,
                excludes,
            ),
        ),
    decreases files.len() - at,
{
    let expected = files.map_values(|file: ArchiveFileView| normalized(file));
    let pass = |file: ArchiveFileView| file_selected(file, includes, excludes);
    if at == files.len() {
        assert(expected.skip(at) =~= Seq::<ArchiveFileView>::empty());
        assert(Seq::<ArchiveFileView>::empty().filter(pass) =~= Seq::<ArchiveFileView>::empty())
            by {
            reveal(Seq::filter);
        }
    } else {
        lemma_entry_unpacked_packed(files, at, includes, excludes);
        lemma_entries_unpacked_packed(files, at + 1, includes, excludes);
        assert(packed_entries(files).skip(at).skip(1) =~= packed_entries(files).skip(at + 1));
        assert(seq![normalized(files[at])] + expected.skip(at + 1) =~= expected.skip(at));
        expected.skip(at + 1).lemma_filter_prepend(normalized(files[at]), pass);
        let rest = expected.skip(at + 1).filter(pass);
        assert(Seq::<ArchiveFileView>::empty() + rest =~= rest);
    }
}

/// The header of a built archive names the newer version and the number of
/// the files that it holds.
pub proof fn lemma_packed_header_read(files: Seq<ArchiveFileView>)
    requires
        files.len() <= u32::MAX,
    ensures
        header_read(archive_bytes(files), 0) == Ok::<_, ErrorView>(
            IroHeader {
                version: IroVersion::Two,
                flags: IroFlags::Full,
                size: IRO_HEADER_SIZE_FIELD,
                num_files: files.len() as u32,
            },
        ),
{
    let header = packed_header(files);
    lemma_header_round_trip(header, Seq::empty());
    assert(archive_bytes(files).subrange(0, 20) =~= header_bytes(header) + Seq::<u8>::empty());
}

/// An archive that is built from files and then unpacked yields those of the
/// files that the lists of the unpacking let through, each with its content
/// and, with `/` for every separator, its path. This holds of files that the
/// format can hold.
pub proof fn lemma_build_unpack_round_trip(
    files: Seq<ArchiveFileView>,
    includes: Option<Seq<Seq<char>>>,
    excludes: Option<Seq<Seq<char>>>,
)
    requires
        representable(files),
    ensures
        unpacked(archive_bytes(files), includes, excludes) == Ok::<_, ErrorView>(
            kept(files.map_values(|file: ArchiveFileView| normalized(file)), includes, excludes),
        ),
{
    lemma_packed_header_read(files);
    lemma_entries_read_packed(files);
    lemma_entries_unpacked_packed(files, 0, includes, excludes);
    assert(packed_entries(files).skip(0) =~= packed_entries(files));
    let expected = files.map_values(|file: ArchiveFileView| normalized(file));
    assert(expected.skip(0) =~= expected);
}

/// Packing and then unpacking gives back every file that the lists of the
/// packing and then those of the unpacking let through: its content as it was,
/// and its path with `/` for every separator. The lists of the unpacking are
/// asked about the path as it comes out. This holds where the format can hold
/// the files that were packed.
pub proof fn lemma_pack_unpack_round_trip(
    files: Seq<ArchiveFileView>,
    pack_includes: Option<Seq<Seq<char>>>,
    pack_excludes: Option<Seq<Seq<char>>>,
    unpack_includes: Option<Seq<Seq<char>>>,
    unpack_excludes: Option<Seq<Seq<char>>>,
)
    requires
        representable(kept(files, pack_includes, pack_excludes)),
    ensures
        unpacked(packed(files, pack_includes, pack_excludes), unpack_includes, unpack_excludes)
            == Ok::<_, ErrorView>(
            kept(
                kept(files, pack_includes, pack_excludes).map_values(
                    |file: ArchiveFileView| normalized(file),
                ),
                unpack_includes,
                unpack_excludes,
            ),
        ),
{
    lemma_build_unpack_round_trip(
        kept(files, pack_includes, pack_excludes),
        unpack_includes,
        unpack_excludes,
    );
}

/// Packing and then unpacking, both without a list, gives back every file:
/// its content as it was, and its path with `/` for every separator. This
/// holds where the format can hold the files.
pub proof fn lemma_round_trip_without_filter(files: Seq<ArchiveFileView>)
    requires
        representable(files),
    ensures
        unpacked(packed(files, None, None), None, None) == Ok::<_, ErrorView>(
            files.map_values(|file: ArchiveFileView| normalized(file)),
        ),
{
    lemma_kept_without_filter(files);
    lemma_kept_without_filter(files.map_values(|file: ArchiveFileView| normalized(file)));
    lemma_pack_unpack_round_trip(files, None, None, None, None);
}

/// Without a list every file is kept.
pub proof fn lemma_kept_without_filter(files: Seq<ArchiveFileView>)
    ensures
        kept(files, None, None) == files,
    decreases files.len(),
{
    reveal(Seq::filter);
    if files.len() > 0 {
        lemma_kept_without_filter(files.drop_last());
        assert(files.drop_last().push(files.last()) =~= files);
    }
}

/// The header of a packed archive names the newer version and the number of
/// the files that the lists let through. This holds where that number fits 32
/// bits.
pub proof fn lemma_pack_header_fidelity(
    files: Seq<ArchiveFileView>,
    includes: Option<Seq<Seq<char>>>,
    excludes: Option<Seq<Seq<char>>>,
)
    requires
        kept(files, includes, excludes).len() <= u32::MAX,
    ensures
        header_read(packed(files, includes, excludes), 0) == Ok::<_, ErrorView>(
            IroHeader {
                version: IroVersion::Two,
                flags: IroFlags::Full,
                size: IRO_HEADER_SIZE_FIELD,
                num_files: kept(files, includes, excludes).len() as u32,
            },
        ),
{
    lemma_packed_header_read(kept(files, includes, excludes));
}

/// Packing is a function of the files and the lists: two archives that are
/// built from the same files with the same lists are the same bytes.
pub proof fn lemma_pack_deterministic(
    files: Seq<ArchiveFileView>,
    includes: Option<Seq<Seq<char>>>,
    excludes: Option<Seq<Seq<char>>>,
    first: Seq<u8>,
    second: Seq<u8>,
)
    requires
        first == packed(files, includes, excludes),
        second == packed(files, includes, excludes),
    ensures
        first == second,
{
}

/// In a built archive the content of every file lies behind the index, and
/// the content of a file ends before that of a later file starts.
pub proof fn lemma_packed_ranges_apart(files: Seq<ArchiveFileView>, earlier: int, later: int)
    requires
        0 <= earlier < later < files.len(),
    ensures
        payload_offset(files, earlier) >= IRO_HEADER_BYTE_SIZE + index_size(files),
        payload_offset(files, earlier) + files[earlier].data.len() <= payload_offset(files, later),
        payload_offset(files, later) + files[later].data.len() <= archive_bytes(files).len(),
    decreases later - earlier,
{
    lemma_content_place(files, later);
    lemma_payload_prefix(files, earlier);
    if earlier + 1 < later {
        lemma_packed_ranges_apart(files, earlier + 1, later);
        lemma_payload_prefix(files, earlier + 1);
    }
}

/// The archive of no files is a bare header that counts none, and unpacking
/// it yields no file.
pub proof fn lemma_empty_archive()
    ensures
        archive_bytes(Seq::empty()).len() == IRO_HEADER_BYTE_SIZE,
        header_read(archive_bytes(Seq::empty()), 0) == Ok::<_, ErrorView>(
            IroHeader {
                version: IroVersion::Two,
                flags: IroFlags::Full,
                size: IRO_HEADER_SIZE_FIELD,
                num_files: 0,
            },
        ),
        unpacked(archive_bytes(Seq::empty()), None, None) == Ok::<_, ErrorView>(
            Seq::<ArchiveFileView>::empty(),
        ),
{
    let none = Seq::<ArchiveFileView>::empty();
    lemma_header_round_trip(packed_header(none), Seq::empty());
    lemma_packed_header_read(none);
    lemma_round_trip_without_filter(none);
    lemma_kept_without_filter(none);
    assert(none.map_values(|file: ArchiveFileView| normalized(file)) =~= none);
}

} // verus!
