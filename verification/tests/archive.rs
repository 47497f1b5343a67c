use iroga::error::{Error, IoError, ParseFault};
use iroga::iro_archive::IroArchive;
use iroga::iro_entry::{FileFlags, IroEntry};
use iroga::iro_header::{IroFlags, IroHeader, IroVersion};
use iroga::pack::ArchiveFile;
use iroga::{pack_archive, unpack_archive};

fn three_files() -> Vec<u8> {
    pack_archive(
        &vec![
            ArchiveFile { path: "a.txt".to_string(), data: b"A".to_vec() },
            ArchiveFile { path: "b.txt".to_string(), data: b"BB".to_vec() },
            ArchiveFile { path: "dir/c.txt".to_string(), data: b"CCC".to_vec() },
        ],
        &None,
        &None,
    )
}

/// An archive of the older version with one stored file, `a.txt`, that holds
/// `A`: the offsets of its index take four bytes.
fn older_archive() -> Vec<u8> {
    vec![
        0x49, 0x52, 0x4F, 0x53, 0x00, 0x00, 0x01, 0x00, 0x00, 0x00, 0x00, 0x00, 0x10, 0x00, 0x00,
        0x00, 0x01, 0x00, 0x00, 0x00, 0x1A, 0x00, 0x0A, 0x00, 0x61, 0x00, 0x2E, 0x00, 0x74, 0x00,
        0x78, 0x00, 0x74, 0x00, 0x00, 0x00, 0x00, 0x00, 0x2E, 0x00, 0x00, 0x00, 0x01, 0x00, 0x00,
        0x00, 0x41,
    ]
}

#[test]
fn archive_is_read_step_by_step() {
    let mut archive = IroArchive::open(three_files());
    let header = archive.read_header().unwrap();
    assert_eq!(header, IroHeader::new(IroVersion::Two, IroFlags::Full, 16, 3));
    let entries = archive.read_iro_entries(&header).unwrap();
    assert_eq!(entries.len(), 3);
    assert_eq!(entries[0].offset, 20 + 30 + 30 + 38);
    assert_eq!(entries[1].offset, 20 + 30 + 30 + 38 + 1);
    assert_eq!(entries[2].offset, 20 + 30 + 30 + 38 + 3);
    assert_eq!(entries[2].data_len, 3);
    assert_eq!(entries[2].flags, FileFlags::Uncompressed);
}

#[test]
fn entries_are_taken_out_in_any_order() {
    let mut archive = IroArchive::open(three_files());
    let header = archive.read_header().unwrap();
    let entries = archive.read_iro_entries(&header).unwrap();
    let mut out = Vec::new();
    archive.seek_and_read_file_entry(&entries[2], &mut out).unwrap();
    archive.seek_and_read_file_entry(&entries[0], &mut out).unwrap();
    archive.seek_and_read_file_entry(&entries[1], &mut out).unwrap();
    archive.seek_and_read_file_entry(&entries[0], &mut out).unwrap();
    assert_eq!(out, b"CCCABBA");
}

#[test]
fn reading_goes_on_where_the_cursor_stands() {
    let mut archive = IroArchive::open(three_files());
    let header = archive.read_header().unwrap();
    let first = archive.read_iro_entries(&IroHeader::new(header.version, header.flags, 16, 1));
    assert_eq!(first.unwrap()[0].path.len(), 10);
    let others = archive.read_iro_entries(&IroHeader::new(header.version, header.flags, 16, 2));
    let others = others.unwrap();
    assert_eq!(others[0].path.len(), 10);
    assert_eq!(others[1].path.len(), 18);
}

#[test]
fn a_source_shorter_than_a_header_ends_too_early() {
    let mut archive = IroArchive::open(three_files()[..19].to_vec());
    assert_eq!(archive.read_header(), Err(Error::Io(IoError::UnexpectedEof)));
    let mut archive = IroArchive::open(Vec::new());
    assert_eq!(archive.read_header(), Err(Error::Io(IoError::UnexpectedEof)));
}

#[test]
fn a_second_header_is_not_there() {
    let mut archive = IroArchive::open(three_files()[..30].to_vec());
    assert!(archive.read_header().is_ok());
    assert_eq!(archive.read_header(), Err(Error::Io(IoError::UnexpectedEof)));
}

#[test]
fn bad_magic_fails_with_a_validation_error() {
    let mut bytes = three_files();
    bytes[3] = b'X';
    let mut archive = IroArchive::open(bytes.clone());
    assert_eq!(archive.read_header(), Err(Error::CannotParseBinary(ParseFault::Tag)));
    assert_eq!(
        unpack_archive(bytes, &None, &None),
        Err(Error::CannotParseBinary(ParseFault::Tag))
    );
}

#[test]
fn more_files_declared_than_records_held_is_an_io_error() {
    let mut bytes = pack_archive(
        &vec![ArchiveFile { path: "a.txt".to_string(), data: Vec::new() }],
        &None,
        &None,
    );
    assert_eq!(bytes.len(), 50);
    bytes[16] = 2;
    let mut archive = IroArchive::open(bytes.clone());
    let header = archive.read_header().unwrap();
    assert_eq!(header.num_files, 2);
    assert_eq!(archive.read_iro_entries(&header), Err(Error::Io(IoError::UnexpectedEof)));
    assert_eq!(unpack_archive(bytes, &None, &None), Err(Error::Io(IoError::UnexpectedEof)));
}

#[test]
fn a_record_cut_short_is_an_io_error() {
    let bytes = three_files();
    for end in 20..118 {
        let mut archive = IroArchive::open(bytes[..end].to_vec());
        let header = archive.read_header().unwrap();
        assert_eq!(archive.read_iro_entries(&header), Err(Error::Io(IoError::UnexpectedEof)));
    }
    let mut archive = IroArchive::open(bytes[..118].to_vec());
    let header = archive.read_header().unwrap();
    assert_eq!(archive.read_iro_entries(&header).unwrap().len(), 3);
}

#[test]
fn a_huge_count_on_a_short_source_is_an_io_error() {
    let mut bytes = three_files();
    bytes[16] = 0xFF;
    bytes[17] = 0xFF;
    bytes[18] = 0xFF;
    bytes[19] = 0xFF;
    assert_eq!(unpack_archive(bytes, &None, &None), Err(Error::Io(IoError::UnexpectedEof)));
}

#[test]
fn a_length_prefix_below_two_announces_no_record() {
    for prefix in [0u8, 1] {
        let mut bytes = Vec::from(IroHeader::new(IroVersion::Two, IroFlags::Full, 16, 1));
        bytes.extend([prefix, 0, 0xAA, 0xBB]);
        let mut archive = IroArchive::open(bytes);
        let header = archive.read_header().unwrap();
        assert_eq!(
            archive.read_iro_entries(&header),
            Err(Error::CannotParseBinary(ParseFault::Eof))
        );
    }
}

#[test]
fn a_length_prefix_that_is_too_small_for_its_record_is_a_parse_error() {
    let mut bytes = three_files();
    bytes[20] = 29;
    let mut archive = IroArchive::open(bytes);
    let header = archive.read_header().unwrap();
    assert_eq!(archive.read_iro_entries(&header), Err(Error::CannotParseBinary(ParseFault::Eof)));
}

#[test]
fn unknown_file_flags_in_the_index_are_rejected() {
    let mut bytes = three_files();
    bytes[34] = 9;
    assert_eq!(unpack_archive(bytes, &None, &None), Err(Error::InvalidFileFlags(9)));
}

#[test]
fn a_payload_is_cut_off_where_the_source_ends() {
    let mut archive = IroArchive::open(b"0123456789".to_vec());
    let mut out = Vec::new();
    let entry = IroEntry::new(Vec::new(), FileFlags::Uncompressed, 7, 100);
    assert_eq!(archive.seek_and_read_file_entry(&entry, &mut out), Ok(()));
    assert_eq!(out, b"789");
    let entry = IroEntry::new(Vec::new(), FileFlags::Uncompressed, 7, 3);
    assert_eq!(archive.seek_and_read_file_entry(&entry, &mut out), Ok(()));
    assert_eq!(out, b"789789");
    let entry = IroEntry::new(Vec::new(), FileFlags::Uncompressed, 2, 2);
    assert_eq!(archive.seek_and_read_file_entry(&entry, &mut out), Ok(()));
    assert_eq!(out, b"78978923");
}

#[test]
fn a_payload_beyond_the_source_is_empty() {
    let mut archive = IroArchive::open(b"0123456789".to_vec());
    let mut out = vec![b'x'];
    for offset in [10, 11, u64::MAX] {
        let entry = IroEntry::new(Vec::new(), FileFlags::Uncompressed, offset, u32::MAX);
        assert_eq!(archive.seek_and_read_file_entry(&entry, &mut out), Ok(()));
    }
    assert_eq!(out, b"x");
    assert_eq!(archive.read_header(), Err(Error::Io(IoError::UnexpectedEof)));
}

#[test]
fn a_payload_may_lie_anywhere_in_the_source() {
    let mut archive = IroArchive::open(three_files());
    let mut out = Vec::new();
    let entry = IroEntry::new(Vec::new(), FileFlags::Uncompressed, 0, 4);
    assert_eq!(archive.seek_and_read_file_entry(&entry, &mut out), Ok(()));
    assert_eq!(out, b"IROS");
    assert_eq!(archive.read_header(), Err(Error::CannotParseBinary(ParseFault::Tag)));
}

#[test]
fn an_lzss_entry_is_decoded() {
    let mut source = vec![0u8; 5];
    source.extend([0x01, b'a', 0xEE, 0xF0]);
    source.extend([0xFF; 3]);
    let mut archive = IroArchive::open(source);
    let mut out = Vec::new();
    let entry = IroEntry::new(Vec::new(), FileFlags::LzssCompressed, 5, 4);
    assert_eq!(archive.seek_and_read_file_entry(&entry, &mut out), Ok(()));
    assert_eq!(out, b"aaaa");
}

#[test]
fn an_lzma_entry_without_its_sub_header_fails() {
    let mut archive = IroArchive::open(vec![0u8; 64]);
    let mut out = Vec::new();
    let entry = IroEntry::new(Vec::new(), FileFlags::LzmaCompressed, 0, 7);
    assert_eq!(
        archive.seek_and_read_file_entry(&entry, &mut out),
        Err(Error::Io(IoError::UnexpectedEof))
    );
}

#[test]
fn an_archive_of_the_older_version_is_unpacked() {
    let mut archive = IroArchive::open(older_archive());
    let header = archive.read_header().unwrap();
    assert_eq!(header, IroHeader::new(IroVersion::Zero, IroFlags::Full, 16, 1));
    let entries = archive.read_iro_entries(&header).unwrap();
    assert_eq!(entries.len(), 1);
    assert_eq!(entries[0].offset, 46);
    assert_eq!(entries[0].data_len, 1);
    assert_eq!(
        unpack_archive(older_archive(), &None, &None),
        Ok(vec![ArchiveFile { path: "a.txt".to_string(), data: b"A".to_vec() }])
    );
}

#[test]
fn an_archive_of_the_older_version_is_not_one_of_the_newer() {
    let mut bytes = older_archive();
    bytes[4] = 2;
    assert_eq!(
        unpack_archive(bytes, &None, &None),
        Err(Error::CannotParseBinary(ParseFault::Eof))
    );
}
