//! Building an archive from files that are held in memory.

use vstd::prelude::*;
use vstd::utf8::encode_utf8;

use crate::filter::{entry_selected, filter_within_limit, match_entry_path, within_limit};
use crate::iro_entry::{
    entry_bytes, entry_size, lemma_entry_bytes_len, FileFlags, IroEntry, IroEntryView,
    INDEX_FIXED_BYTE_SIZE,
};
use crate::iro_header::{
    header_bytes, lemma_header_bytes_len, IroFlags, IroHeader, IroVersion, IRO_HEADER_BYTE_SIZE,
    IRO_HEADER_SIZE_FIELD,
};
use crate::path_codec::{path_bytes, unicode_filepath_bytes};
use crate::wire::{put_bytes, put_bytes_at};

verus! {

/// A file of an archive: its path relative to the root of the tree, and its
/// content.
#[derive(Debug, PartialEq, Eq)]
pub struct ArchiveFile {
    pub path: String,
    pub data: Vec<u8>,
}

/// An [`ArchiveFile`] as sequences.
pub struct ArchiveFileView {
    pub path: Seq<char>,
    pub data: Seq<u8>,
}

impl View for ArchiveFile {
    type V = ArchiveFileView;

    open spec fn view(&self) -> ArchiveFileView {
        ArchiveFileView { path: self.path@, data: self.data@ }
    }
}

impl DeepView for ArchiveFile {
    type V = ArchiveFileView;

    open spec fn deep_view(&self) -> ArchiveFileView {
        self@
    }
}

/// Whether the lists let `file` through; its path is matched as UTF-8.
pub open spec fn file_selected(
    file: ArchiveFileView,
    includes: Option<Seq<Seq<char>>>,
    excludes: Option<Seq<Seq<char>>>,
) -> bool {
    entry_selected(encode_utf8(file.path), includes, excludes)
}

/// The files that the lists let through, in the order in which they came.
pub open spec fn kept(
    files: Seq<ArchiveFileView>,
    includes: Option<Seq<Seq<char>>>,
    excludes: Option<Seq<Seq<char>>>,
) -> Seq<ArchiveFileView> {
    files.filter(|file: ArchiveFileView| file_selected(file, includes, excludes))
}

/// The number of bytes that the records of `files` take.
pub open spec fn index_size(files: Seq<ArchiveFileView>) -> nat
    decreases files.len(),
{
    if files.len() == 0 {
        0
    } else {
        index_size(files.drop_last()) + entry_size(path_bytes(files.last().path).len())
    }
}

/// The contents of `files` one after the other.
pub open spec fn payload(files: Seq<ArchiveFileView>) -> Seq<u8>
    decreases files.len(),
{
    if files.len() == 0 {
        Seq::empty()
    } else {
        payload(files.drop_last()) + files.last().data
    }
}

/// Where the content of the file at `i` starts in the archive of `files`:
/// behind the header, the whole index and the contents of the files before it.
pub open spec fn payload_offset(files: Seq<ArchiveFileView>, i: int) -> nat {
    IRO_HEADER_BYTE_SIZE as nat + index_size(files) + payload(files.take(i)).len()
}

/// The record of the file at `i` in the archive of `files`: stored as it is,
/// with the offset cut to 64 bits and the length to 32.
pub open spec fn packed_entry(files: Seq<ArchiveFileView>, i: int) -> IroEntryView {
    IroEntryView {
        path: path_bytes(files[i].path),
        flags: FileFlags::Uncompressed,
        offset: (payload_offset(files, i) % 0x1_0000_0000_0000_0000) as u64,
        data_len: (files[i].data.len() % 0x1_0000_0000) as u32,
    }
}

/// The first `count` records of the archive of `files`, one after the other.
pub open spec fn index_bytes(files: Seq<ArchiveFileView>, count: nat) -> Seq<u8>
    decreases count,
{
    if count == 0 {
        Seq::empty()
    } else {
        index_bytes(files, (count - 1) as nat) + entry_bytes(packed_entry(files, count - 1))
    }
}

/// The header of the archive of `files`: the newer version, not a patch, with
/// the number of files cut to 32 bits.
pub open spec fn packed_header(files: Seq<ArchiveFileView>) -> IroHeader {
    IroHeader {
        version: IroVersion::Two,
        flags: IroFlags::Full,
        size: IRO_HEADER_SIZE_FIELD,
        num_files: (files.len() % 0x1_0000_0000) as u32,
    }
}

/// The archive of `files`: the header, one record for each file, then the
/// contents, all in the order of `files`.
pub open spec fn archive_bytes(files: Seq<ArchiveFileView>) -> Seq<u8> {
    header_bytes(packed_header(files)) + index_bytes(files, files.len()) + payload(files)
}

/// The archive of those of `files` that the lists let through.
pub open spec fn packed(
    files: Seq<ArchiveFileView>,
    includes: Option<Seq<Seq<char>>>,
    excludes: Option<Seq<Seq<char>>>,
) -> Seq<u8> {
    archive_bytes(kept(files, includes, excludes))
}

/// Whether the matcher can be asked about every file: whether the patterns
/// and, if there are any, the paths are short enough for it.
pub open spec fn files_within_limit(
    files: Seq<ArchiveFileView>,
    includes: Option<Seq<Seq<char>>>,
    excludes: Option<Seq<Seq<char>>>,
) -> bool {
    &&& filter_within_limit(includes)
    &&& filter_within_limit(excludes)
    &&& forall|i: int|
        0 <= i < files.len() ==> within_limit(
            (#[trigger] encode_utf8(files[i].path)).len(),
            includes,
            excludes,
        )
}

/// Picks the files that the lists let through.
fn select<'a>(
    files: &'a Vec<ArchiveFile>,
    include_files: &Option<Vec<String>>,
    exclude_files: &Option<Vec<String>>,
) -> (entries: Vec<&'a ArchiveFile>)
    requires
        files_within_limit(
            files.deep_view(),
            include_files.deep_view(),
            exclude_files.deep_view(),
        ),
    ensures
        entries.deep_view() == kept(
            files.deep_view(),
            include_files.deep_view(),
            exclude_files.deep_view(),
        ),
{
    let ghost all = files.deep_view();
    let ghost includes = include_files.deep_view();
    let ghost excludes = exclude_files.deep_view();
    let ghost pred = |file: ArchiveFileView| file_selected(file, includes, excludes);
    let mut entries: Vec<&ArchiveFile> = Vec::new();
    let mut at: usize = 0;
    assert(all.take(0).filter(pred) =~= Seq::<ArchiveFileView>::empty()) by {
        reveal(Seq::filter);
    }
    assert(entries.deep_view() =~= Seq::<ArchiveFileView>::empty());
    while at < files.len()
        invariant
            all == files.deep_view(),
            includes == include_files.deep_view(),
            excludes == exclude_files.deep_view(),
            pred == (|file: ArchiveFileView| file_selected(file, includes, excludes)),
            files_within_limit(all, includes, excludes),
            at <= files.len(),
            entries.deep_view() == all.take(at as int).filter(pred),
        decreases files.len() - at,
    {
        let file = &files[at];
        let ghost before = entries.deep_view();
        assert(all[at as int] == file@);
        assert(within_limit(encode_utf8(all[at as int].path).len(), includes, excludes));
        assert(all.take(at as int).push(file@) =~= all.take(at + 1));
        let pass = match_entry_path(file.path.as_str().as_bytes(), include_files, exclude_files);
        proof {
            assert(pass == pred(file@));
            all.take(at as int).lemma_filter_push(file@, pred);
        }
        if pass {
            entries.push(file);
            assert(entries.deep_view() =~= before.push(file@));
        }
        at = at + 1;
    }
    assert(all.take(at as int) =~= all);
    entries
}

/// The first records of an index take as many bytes as the index of the
/// first files.
pub proof fn lemma_index_len(files: Seq<ArchiveFileView>, count: nat)
    requires
        count <= files.len(),
    ensures
        index_bytes(files, count).len() == index_size(files.take(count as int)),
    decreases count,
{
    if count > 0 {
        lemma_index_len(files, (count - 1) as nat);
        lemma_entry_bytes_len(packed_entry(files, count - 1));
        assert(files.take(count as int).drop_last() =~= files.take(count - 1));
    }
}

/// With one more file an index grows by the record of that file and the
/// contents by its content, and the index of the first files is no longer than
/// the index of all.
proof fn lemma_one_more_file(files: Seq<ArchiveFileView>, first: int)
    requires
        0 <= first < files.len(),
    ensures
        index_size(files.take(first + 1)) == index_size(files.take(first)) + entry_size(
            path_bytes(files[first].path).len(),
        ),
        payload(files.take(first + 1)) == payload(files.take(first)) + files[first].data,
        index_size(files.take(first + 1)) <= index_size(files),
    decreases files.len() - first,
{
    assert(files.take(first + 1).drop_last() =~= files.take(first));
    if first + 1 < files.len() {
        lemma_one_more_file(files, first + 1);
    } else {
        assert(files.take(first + 1) =~= files);
    }
}

/// Lays out the archive of `entries`: room for the index behind the header,
/// the contents behind that room, and then, in the room, the records that
/// point at the contents.
fn assemble(entries: &Vec<&ArchiveFile>) -> (archive: Vec<u8>)
    ensures
        archive@ == archive_bytes(entries.deep_view()),
{
    let ghost files = entries.deep_view();
    let ghost header = header_bytes(packed_header(files));
    let count = entries.len();
    let iro_header = IroHeader::new(
        IroVersion::Two,
        IroFlags::Full,
        IRO_HEADER_SIZE_FIELD,
        (count as u64 % 0x1_0000_0000) as u32,
    );
    let mut archive: Vec<u8> = Vec::from(iro_header);
    proof {
        lemma_header_bytes_len(packed_header(files));
        assert(files.take(0) =~= Seq::<ArchiveFileView>::empty());
        assert(archive@.take(IRO_HEADER_BYTE_SIZE as int) =~= header);
    }

    // The payload starts behind the header and the room that the index takes.
    let mut at: usize = 0;
    while at < count
        invariant
            files == entries.deep_view(),
            count == entries.len(),
            at <= count,
            archive@.len() == IRO_HEADER_BYTE_SIZE + index_size(files.take(at as int)),
            archive@.take(IRO_HEADER_BYTE_SIZE as int) == header,
        decreases count - at,
    {
        let mut unicode_filepath = unicode_filepath_bytes(entries[at].path.as_str());
        proof {
            assert(files[at as int] == entries[at as int]@);
            lemma_one_more_file(files, at as int);
        }
        let ghost path_len = unicode_filepath@.len();
        let ghost before = archive@.len();
        archive.append(&mut unicode_filepath);
        let mut room: usize = 0;
        while room < INDEX_FIXED_BYTE_SIZE
            invariant
                room <= INDEX_FIXED_BYTE_SIZE,
                archive@.len() == before + path_len + room,
                before >= IRO_HEADER_BYTE_SIZE,
                archive@.take(IRO_HEADER_BYTE_SIZE as int) == header,
            decreases INDEX_FIXED_BYTE_SIZE - room,
        {
            let ghost so_far = archive@;
            archive.push(0);
            room = room + 1;
            assert(archive@.take(IRO_HEADER_BYTE_SIZE as int) =~= so_far.take(
                IRO_HEADER_BYTE_SIZE as int,
            ));
        }
        at = at + 1;
    }
    assert(files.take(count as int) =~= files);
    let payload_start = archive.len();

    // Each content goes where the archive ends; its place and its length are
    // kept for the index.
    let mut places: Vec<(u64, u32)> = Vec::new();
    let mut at: usize = 0;
    assert(files.take(0) =~= Seq::<ArchiveFileView>::empty());
    assert(archive@.skip(payload_start as int) =~= payload(files.take(0)));
    while at < count
        invariant
            files == entries.deep_view(),
            count == entries.len(),
            at <= count,
            payload_start == IRO_HEADER_BYTE_SIZE + index_size(files),
            archive@.len() == payload_offset(files, at as int),
            archive@.take(IRO_HEADER_BYTE_SIZE as int) == header,
            archive@.skip(payload_start as int) == payload(files.take(at as int)),
            places@.len() == at,
            forall|i: int|
                0 <= i < at ==> (#[trigger] places@[i]) == (
                    packed_entry(files, i).offset,
                    packed_entry(files, i).data_len,
                ),
        decreases count - at,
    {
        let file = entries[at];
        proof {
            assert(files[at as int] == file@);
            lemma_one_more_file(files, at as int);
        }
        let ghost so_far = archive@;
        places.push((archive.len() as u64, (file.data.len() as u64 % 0x1_0000_0000) as u32));
        put_bytes(&mut archive, file.data.as_slice());
        at = at + 1;
        proof {
            assert(archive@.take(IRO_HEADER_BYTE_SIZE as int) =~= so_far.take(
                IRO_HEADER_BYTE_SIZE as int,
            ));
            assert(archive@.skip(payload_start as int) =~= so_far.skip(payload_start as int)
                + file.data@);
        }
    }
    assert(files.take(count as int) =~= files);

    // Back to the room behind the header, now that the places are known.
    let mut position: usize = IRO_HEADER_BYTE_SIZE;
    let mut at: usize = 0;
    assert(archive@.take(position as int) =~= header + index_bytes(files, 0));
    while at < count
        invariant
            files == entries.deep_view(),
            count == entries.len(),
            at <= count,
            places@.len() == count,
            forall|i: int|
                0 <= i < count ==> (#[trigger] places@[i]) == (
                    packed_entry(files, i).offset,
                    packed_entry(files, i).data_len,
                ),
            payload_start == IRO_HEADER_BYTE_SIZE + index_size(files),
            payload_start <= archive@.len(),
            position == IRO_HEADER_BYTE_SIZE + index_size(files.take(at as int)),
            position <= payload_start,
            archive@.take(position as int) == header + index_bytes(files, at as nat),
            archive@.skip(payload_start as int) == payload(files),
        decreases count - at,
    {
        let file = entries[at];
        let (offset, data_len) = places[at];
        proof {
            assert(files[at as int] == file@);
            lemma_one_more_file(files, at as int);
        }
        let iro_entry = IroEntry::new(
            unicode_filepath_bytes(file.path.as_str()),
            FileFlags::Uncompressed,
            offset,
            data_len,
        );
        assert(iro_entry@ == packed_entry(files, at as int));
        proof {
            lemma_entry_bytes_len(iro_entry@);
        }
        let record = Vec::from(iro_entry);
        let ghost so_far = archive@;
        put_bytes_at(&mut archive, position, record.as_slice());
        proof {
            assert(archive@.take(position + record@.len()) =~= so_far.take(position as int)
                + record@);
            assert(archive@.skip(payload_start as int) =~= so_far.skip(payload_start as int));
            assert(header + index_bytes(files, at as nat) + record@ =~= header + index_bytes(
                files,
                (at + 1) as nat,
            ));
        }
        position = position + record.len();
        at = at + 1;
    }
    assert(files.take(count as int) =~= files);
    assert(archive@ =~= archive@.take(position as int) + archive@.skip(payload_start as int));
    archive
}

/// Builds the archive of those of `files` that the lists let through: the
/// header, one record for each of them, then their contents, all in the order
/// in which the files came. Every content is stored as it is. Where a list is
/// given, its patterns and the paths of the files must be within the limit of
/// the matcher.
pub fn pack_archive(
    files: &Vec<ArchiveFile>,
    include_files: &Option<Vec<String>>,
    exclude_files: &Option<Vec<String>>,
) -> (archive: Vec<u8>)
    requires
        files_within_limit(
            files.deep_view(),
            include_files.deep_view(),
            exclude_files.deep_view(),
        ),
    ensures
        archive@ == packed(
            files.deep_view(),
            include_files.deep_view(),
            exclude_files.deep_view(),
        ),
{
    let entries = select(files, include_files, exclude_files);
    assemble(&entries)
}

} // verus!
