//! Taking the files out of an archive that is held in memory.

use vstd::prelude::*;
use vstd::utf8::encode_utf8;

use crate::compression::decoded;
use crate::error::{Error, ErrorView};
use crate::filter::{entry_selected, filter_within_limit, match_entry_path};
use crate::iro_archive::{
    entries_read, header_read, lemma_entries_read_paths, payload_window, IroArchive,
};
use crate::iro_entry::{IroEntry, IroEntryView};
use crate::iro_header::IRO_HEADER_BYTE_SIZE;
use crate::pack::{ArchiveFile, ArchiveFileView};
use crate::path_codec::{
    le_units, lemma_decode_utf16_len, lemma_encode_utf8_len, path_text, unicode_filepath_text,
};

verus! {

/// What one entry yields: nothing if the lists hold back its path, else the
/// file. A path that is not UTF-16 fails before the lists are asked, a payload
/// that does not decode after.
pub open spec fn entry_unpacked(
    source: Seq<u8>,
    entry: IroEntryView,
    includes: Option<Seq<Seq<char>>>,
    excludes: Option<Seq<Seq<char>>>,
) -> Result<Option<ArchiveFileView>, ErrorView> {
    match path_text(entry.path) {
        Err(e) => Err(e),
        Ok(path) => {
            let content = decoded(
                entry.flags,
                payload_window(source, entry.offset, entry.data_len),
            );
            if !entry_selected(encode_utf8(path), includes, excludes) {
                Ok(None)
            } else if content.error is Some {
                Err(content.error->0)
            } else {
                Ok(Some(ArchiveFileView { path, data: content.bytes }))
            }
        },
    }
}

/// What the entries yield one after the other; the first that fails ends the
/// work.
pub open spec fn entries_unpacked(
    source: Seq<u8>,
    entries: Seq<IroEntryView>,
    includes: Option<Seq<Seq<char>>>,
    excludes: Option<Seq<Seq<char>>>,
) -> Result<Seq<ArchiveFileView>, ErrorView>
    decreases entries.len(),
{
    if entries.len() == 0 {
        Ok(Seq::empty())
    } else {
        match entry_unpacked(source, entries[0], includes, excludes) {
            Err(e) => Err(e),
            Ok(file) => match entries_unpacked(source, entries.skip(1), includes, excludes) {
                Err(e) => Err(e),
                Ok(rest) => Ok(
                    match file {
                        Some(file) => seq![file] + rest,
                        None => rest,
                    },
                ),
            },
        }
    }
}

/// What an archive yields: the files of the entries that the lists let
/// through, in the order of the index.
pub open spec fn unpacked(
    source: Seq<u8>,
    includes: Option<Seq<Seq<char>>>,
    excludes: Option<Seq<Seq<char>>>,
) -> Result<Seq<ArchiveFileView>, ErrorView> {
    match header_read(source, 0) {
        Err(e) => Err(e),
        Ok(header) => match entries_read(
            source,
            IRO_HEADER_BYTE_SIZE as nat,
            header.version,
            header.num_files as nat,
        ).0 {
            Err(e) => Err(e),
            Ok(entries) => entries_unpacked(source, entries, includes, excludes),
        },
    }
}

/// The files taken out so far in front of what the entries still to come
/// yield.
pub open spec fn unpacked_on(
    done: Seq<ArchiveFileView>,
    rest: Result<Seq<ArchiveFileView>, ErrorView>,
) -> Result<Seq<ArchiveFileView>, ErrorView> {
    match rest {
        Ok(files) => Ok(done + files),
        Err(e) => Err(e),
    }
}

/// What the entries from `at` on yield goes by the entry at `at` and by what
/// the entries behind it yield.
proof fn lemma_entries_unpacked_step(
    source: Seq<u8>,
    entries: Seq<IroEntryView>,
    at: int,
    includes: Option<Seq<Seq<char>>>,
    excludes: Option<Seq<Seq<char>>>,
)
    requires
        0 <= at < entries.len(),
    ensures
        entries_unpacked(source, entries.skip(at), includes, excludes) == (match entry_unpacked(
            source,
            entries[at],
            includes,
            excludes,
        ) {
            Err(e) => Err(e),
            Ok(file) => match entries_unpacked(source, entries.skip(at + 1), includes, excludes) {
                Err(e) => Err(e),
                Ok(rest) => Ok(
                    match file {
                        Some(file) => seq![file] + rest,
                        None => rest,
                    },
                ),
            },
        }),
{
    assert(entries.skip(at)[0] == entries[at]);
    assert(entries.skip(at).skip(1) =~= entries.skip(at + 1));
}

/// Takes the file of `iro_entry` out of `archive`, unless the lists hold it
/// back; then the archive is left as it is.
fn unpack_entry(
    archive: &mut IroArchive,
    iro_entry: &IroEntry,
    include_files: &Option<Vec<String>>,
    exclude_files: &Option<Vec<String>>,
) -> (r: Result<Option<ArchiveFile>, Error>)
    requires
        iro_entry.path@.len() <= 0xFFFF,
        filter_within_limit(include_files.deep_view()),
        filter_within_limit(exclude_files.deep_view()),
    ensures
        final(archive).source() == old(archive).source(),
        (match r {
            Ok(Some(file)) => entry_unpacked(
                old(archive).source(),
                iro_entry@,
                include_files.deep_view(),
                exclude_files.deep_view(),
            ) == Ok::<_, ErrorView>(Some(file@)),
            Ok(None) => entry_unpacked(
                old(archive).source(),
                iro_entry@,
                include_files.deep_view(),
                exclude_files.deep_view(),
            ) == Ok::<Option<ArchiveFileView>, ErrorView>(None),
            Err(e) => entry_unpacked(
                old(archive).source(),
                iro_entry@,
                include_files.deep_view(),
                exclude_files.deep_view(),
            ) == Err::<Option<ArchiveFileView>, _>(e@),
        }),
{
    let iro_entry_path = match unicode_filepath_text(iro_entry.path.as_slice()) {
        Ok(path) => path,
        Err(e) => {
            return Err(e);
        },
    };
    proof {
        lemma_decode_utf16_len(le_units(iro_entry.path@));
        lemma_encode_utf8_len(iro_entry_path@);
    }
    if !match_entry_path(iro_entry_path.as_str().as_bytes(), include_files, exclude_files) {
        return Ok(None);
    }
    let mut data: Vec<u8> = Vec::new();
    match archive.seek_and_read_file_entry(iro_entry, &mut data) {
        Ok(()) => {
            assert(data@ =~= decoded(
                iro_entry.flags,
                payload_window(old(archive).source(), iro_entry.offset, iro_entry.data_len),
            ).bytes);
            Ok(Some(ArchiveFile { path: iro_entry_path, data }))
        },
        Err(e) => Err(e),
    }
}

/// Reads the archive `iro` and takes out the files that the lists let
/// through, in the order of the index, each with `/` between the components of
/// its path. The first entry that cannot be taken out ends the work. The
/// patterns of the lists must be within the limit of the matcher.
pub fn unpack_archive(
    iro: Vec<u8>,
    include_files: &Option<Vec<String>>,
    exclude_files: &Option<Vec<String>>,
) -> (r: Result<Vec<ArchiveFile>, Error>)
    requires
        filter_within_limit(include_files.deep_view()),
        filter_within_limit(exclude_files.deep_view()),
    ensures
        (match r {
            Ok(files) => unpacked(iro@, include_files.deep_view(), exclude_files.deep_view())
                == Ok::<_, ErrorView>(files.deep_view()),
            Err(e) => unpacked(iro@, include_files.deep_view(), exclude_files.deep_view())
                == Err::<Seq<ArchiveFileView>, _>(e@),
        }),
{
    let ghost source = iro@;
    let ghost includes = include_files.deep_view();
    let ghost excludes = exclude_files.deep_view();
    let mut iro_archive = IroArchive::open(iro);
    let iro_header = match iro_archive.read_header() {
        Ok(iro_header) => iro_header,
        Err(e) => {
            return Err(e);
        },
    };
    let iro_entries = match iro_archive.read_iro_entries(&iro_header) {
        Ok(iro_entries) => iro_entries,
        Err(e) => {
            return Err(e);
        },
    };
    let ghost entries = iro_entries.deep_view();
    proof {
        lemma_entries_read_paths(
            source,
            IRO_HEADER_BYTE_SIZE as nat,
            iro_header.version,
            iro_header.num_files as nat,
        );
    }
    let mut files: Vec<ArchiveFile> = Vec::new();
    let mut at: usize = 0;
    assert(files.deep_view() =~= Seq::<ArchiveFileView>::empty());
    assert(entries.skip(0) =~= entries);
    assert(entries_unpacked(source, entries, includes, excludes) == unpacked_on(
        Seq::empty(),
        entries_unpacked(source, entries, includes, excludes),
    )) by {
        let whole = entries_unpacked(source, entries, includes, excludes);
        if whole is Ok {
            assert(Seq::<ArchiveFileView>::empty() + whole->Ok_0 =~= whole->Ok_0);
        }
    }
    while at < iro_entries.len()
        invariant
            source == iro@,
            iro_archive.source() == source,
            unpacked(source, includes, excludes) == entries_unpacked(
                source,
                entries,
                includes,
                excludes,
            ),
            includes == include_files.deep_view(),
            excludes == exclude_files.deep_view(),
            filter_within_limit(includes),
            filter_within_limit(excludes),
            entries == iro_entries.deep_view(),
            forall|i: int| 0 <= i < entries.len() ==> (#[trigger] entries[i]).path.len() <= 0xFFFF,
            at <= iro_entries.len(),
            entries_unpacked(source, entries, includes, excludes) == unpacked_on(
                files.deep_view(),
                entries_unpacked(source, entries.skip(at as int), includes, excludes),
            ),
        decreases iro_entries.len() - at,
    {
        let ghost before = files.deep_view();
        let ghost rest = entries_unpacked(source, entries.skip(at + 1), includes, excludes);
        proof {
            assert(entries[at as int] == iro_entries[at as int]@);
            lemma_entries_unpacked_step(source, entries, at as int, includes, excludes);
        }
        match unpack_entry(&mut iro_archive, &iro_entries[at], include_files, exclude_files) {
            Err(e) => {
                return Err(e);
            },
            Ok(None) => {},
            Ok(Some(file)) => {
                let ghost taken = file@;
                files.push(file);
                proof {
                    assert(files.deep_view() =~= before.push(taken));
                    if rest is Ok {
                        assert(before + (seq![taken] + rest->Ok_0) =~= before.push(taken)
                            + rest->Ok_0);
                    }
                }
            },
        }
        at = at + 1;
    }
    assert(files.deep_view() + Seq::<ArchiveFileView>::empty() =~= files.deep_view());
    Ok(files)
}

} // verus!
