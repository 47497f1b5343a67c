use iroga::compression::{
    decompress, finish_decoding, lzma_decompress, lzss_decompress, LzmaFailure, LzmaOutput,
};
use iroga::error::{Error, IoError};
use iroga::iro_entry::{FileFlags, IroEntry};
use iroga::iro_header::{IroFlags, IroHeader, IroVersion};
use iroga::pack::ArchiveFile;
use iroga::path_codec::unicode_filepath_bytes;
use iroga::unpack_archive;
use lzs::ResultLzsErrorVoidExt;

const XML: &str = "<?xml version=\"1.0\" encoding=\"utf-8\"?>\r\n";

/// The text as an LZSS stream that holds nothing but literals: a flag byte in
/// front of every eight of them.
fn lzss_literals(text: &[u8]) -> Vec<u8> {
    let mut blob = Vec::new();
    for chunk in text.chunks(8) {
        blob.push(0xFF);
        blob.extend_from_slice(chunk);
    }
    blob
}

/// The payload of an LZMA entry: the sub-header and the stream behind it.
fn lzma_payload(unpacked_size: i32, properties_size: i32, stream: &[u8]) -> Vec<u8> {
    let mut payload = Vec::new();
    payload.extend(unpacked_size.to_le_bytes());
    payload.extend(properties_size.to_le_bytes());
    payload.extend_from_slice(stream);
    payload
}

fn lzma_stream(text: &[u8]) -> Vec<u8> {
    let options = lzma_rs::compress::Options {
        unpacked_size: lzma_rs::compress::UnpackedSize::SkipWritingToHeader,
    };
    let mut source = text;
    let mut stream = Vec::new();
    lzma_rs::lzma_compress_with_options(&mut source, &mut stream, &options).unwrap();
    stream
}

fn lzma2_stream(text: &[u8]) -> Vec<u8> {
    let mut source = text;
    let mut stream = Vec::new();
    lzma_rs::lzma2_compress(&mut source, &mut stream).unwrap();
    stream
}

/// An archive of one entry, `doc/a.xml`, whose payload is stored by the
/// method of `flags`.
fn archive_of_one(flags: FileFlags, payload: &[u8]) -> Vec<u8> {
    let path = unicode_filepath_bytes("doc/a.xml");
    let offset = (20 + path.len() + 20) as u64;
    let mut archive = Vec::from(IroHeader::new(IroVersion::Two, IroFlags::Patch, 16, 1));
    archive.extend(Vec::from(IroEntry::new(path, flags, offset, payload.len() as u32)));
    archive.extend_from_slice(payload);
    archive
}

fn xml_file() -> Vec<ArchiveFile> {
    vec![ArchiveFile { path: "doc/a.xml".to_string(), data: XML.as_bytes().to_vec() }]
}

#[test]
fn an_lzss_entry_unpacks_to_the_text() {
    let archive = archive_of_one(FileFlags::LzssCompressed, &lzss_literals(XML.as_bytes()));
    assert_eq!(unpack_archive(archive, &None, &None), Ok(xml_file()));
}

#[test]
fn an_lzma_entry_unpacks_to_the_text() {
    let payload = lzma_payload(XML.len() as i32, 5, &lzma_stream(XML.as_bytes()));
    let archive = archive_of_one(FileFlags::LzmaCompressed, &payload);
    assert_eq!(unpack_archive(archive, &None, &None), Ok(xml_file()));
}

#[test]
fn an_lzma2_entry_unpacks_to_the_text() {
    let payload = lzma_payload(XML.len() as i32, 0, &lzma2_stream(XML.as_bytes()));
    let archive = archive_of_one(FileFlags::LzmaCompressed, &payload);
    assert_eq!(unpack_archive(archive, &None, &None), Ok(xml_file()));
}

#[test]
fn a_stored_entry_unpacks_as_it_is() {
    let archive = archive_of_one(FileFlags::Uncompressed, XML.as_bytes());
    assert_eq!(unpack_archive(archive, &None, &None), Ok(xml_file()));
}

#[test]
fn an_entry_is_decoded_within_its_length_only() {
    let mut archive = archive_of_one(FileFlags::LzssCompressed, &lzss_literals(XML.as_bytes()));
    archive.extend([0xFF, b'x', b'y', b'z']);
    assert_eq!(unpack_archive(archive, &None, &None), Ok(xml_file()));
}

#[test]
fn an_lzma_entry_that_does_not_decode_ends_the_unpacking() {
    let archive = archive_of_one(FileFlags::LzmaCompressed, &lzma_payload(3, 5, &[0xFF; 16]));
    match unpack_archive(archive, &None, &None) {
        Err(Error::Io(IoError::Other(_))) => {}
        other => panic!("{:?}", other),
    }
}

#[test]
fn lzss_literals_decode_to_the_text() {
    let blob = lzss_literals(XML.as_bytes());
    assert_eq!(blob.len(), 45);
    let mut out = Vec::new();
    assert_eq!(lzss_decompress(&blob, &mut out), Ok(()));
    assert_eq!(out, XML.as_bytes());
}

#[test]
fn lzss_known_blob_decodes_to_the_text() {
    let blob = lzs::Lzs::new(0x00)
        .compress(lzs::SliceReader::new(XML.as_bytes()), lzs::VecWriter::with_capacity(64))
        .void_unwrap();
    assert_ne!(blob, XML.as_bytes());
    let mut out = Vec::new();
    assert_eq!(lzss_decompress(&blob, &mut out), Ok(()));
    assert_eq!(String::from_utf8(out).unwrap(), XML);
}

#[test]
fn lzss_copies_from_what_it_wrote() {
    let blob = [0x01, b'a', 0xEE, 0xF0];
    let mut out = vec![b'>'];
    assert_eq!(lzss_decompress(&blob, &mut out), Ok(()));
    assert_eq!(out, b">aaaa");
}

#[test]
fn lzss_dictionary_starts_out_filled_with_zero() {
    let blob = [0x00, 0x00, 0x00];
    let mut out = Vec::new();
    assert_eq!(lzss_decompress(&blob, &mut out), Ok(()));
    assert_eq!(out, vec![0x00, 0x00, 0x00]);
}

#[test]
fn lzss_of_nothing_is_nothing() {
    let mut out = vec![1, 2, 3];
    assert_eq!(lzss_decompress(&[], &mut out), Ok(()));
    assert_eq!(out, vec![1, 2, 3]);
}

#[test]
fn lzma_payload_decodes_to_the_text() {
    let payload = lzma_payload(XML.len() as i32, 5, &lzma_stream(XML.as_bytes()));
    let mut out = vec![b'#'];
    assert_eq!(lzma_decompress(&payload, &mut out), Ok(()));
    assert_eq!(String::from_utf8(out).unwrap(), format!("#{}", XML));
}

#[test]
fn lzma2_payload_decodes_to_the_text() {
    let payload = lzma_payload(0, 4, &lzma2_stream(XML.as_bytes()));
    let mut out = Vec::new();
    assert_eq!(lzma_decompress(&payload, &mut out), Ok(()));
    assert_eq!(String::from_utf8(out).unwrap(), XML);
}

#[test]
fn lzma2_is_picked_by_a_properties_size_below_five() {
    let stream = lzma2_stream(b"abc");
    for properties_size in [i32::MIN, -1, 0, 4] {
        let mut out = Vec::new();
        assert_eq!(lzma_decompress(&lzma_payload(3, properties_size, &stream), &mut out), Ok(()));
        assert_eq!(out, b"abc");
    }
    let mut out = Vec::new();
    assert!(lzma_decompress(&lzma_payload(3, 5, &stream), &mut out).is_err());
}

#[test]
fn lzma_is_picked_by_a_properties_size_of_five_or_more() {
    let stream = lzma_stream(b"abc");
    for properties_size in [5, 6, i32::MAX] {
        let mut out = Vec::new();
        assert_eq!(lzma_decompress(&lzma_payload(3, properties_size, &stream), &mut out), Ok(()));
        assert_eq!(out, b"abc");
    }
}

#[test]
fn lzma_stops_at_the_unpacked_size_of_the_sub_header() {
    let stream = lzma_stream(b"abcdef");
    let mut out = Vec::new();
    assert_eq!(lzma_decompress(&lzma_payload(4, 5, &stream), &mut out), Ok(()));
    assert_eq!(out, b"abcd");
}

#[test]
fn lzma_without_its_sub_header_ends_too_early() {
    let mut out = vec![7];
    assert_eq!(
        lzma_decompress(&[1, 2, 3, 4, 5, 6, 7], &mut out),
        Err(Error::Io(IoError::UnexpectedEof))
    );
    assert_eq!(out, vec![7]);
    assert_eq!(lzma_decompress(&[], &mut out), Err(Error::Io(IoError::UnexpectedEof)));
}

#[test]
fn lzma_failure_is_an_io_error_with_the_decoders_text() {
    let mut out = Vec::new();
    let r = lzma_decompress(&lzma_payload(3, 5, &[0xFF, 0, 0, 0, 0, 0, 0, 0, 0, 0]), &mut out);
    match r {
        Err(Error::Io(IoError::Other(text))) => assert!(text.contains("225")),
        other => panic!("{:?}", other),
    }
}

#[test]
fn lzma2_failure_is_an_io_error_with_the_decoders_text() {
    let mut out = Vec::new();
    let r = lzma_decompress(&lzma_payload(0, 0, &[0x03]), &mut out);
    match r {
        Err(Error::Io(IoError::Other(text))) => assert!(text.contains("invalid status")),
        other => panic!("{:?}", other),
    }
}

#[test]
fn lzma2_keeps_what_was_written_before_the_failure() {
    let mut stream = lzma2_stream(b"abc");
    stream.pop();
    stream.push(0x03);
    let mut out = vec![b'-'];
    assert!(lzma_decompress(&lzma_payload(0, 0, &stream), &mut out).is_err());
    assert_eq!(&out[..1], b"-");
}

#[test]
fn finish_decoding_appends_and_succeeds() {
    let mut writer = vec![9];
    let output = LzmaOutput { bytes: vec![1, 2], failure: None };
    assert_eq!(finish_decoding(output, &mut writer), Ok(()));
    assert_eq!(writer, vec![9, 1, 2]);
}

#[test]
fn finish_decoding_reports_every_failure_as_io() {
    let failures = [
        LzmaFailure::Io("a".to_string()),
        LzmaFailure::HeaderTooShort("b".to_string()),
        LzmaFailure::Lzma("c".to_string()),
        LzmaFailure::Xz("d".to_string()),
    ];
    let texts = ["a", "b", "c", "d"];
    for (failure, text) in failures.into_iter().zip(texts) {
        let mut writer = vec![9];
        let output = LzmaOutput { bytes: vec![1, 2], failure: Some(failure) };
        assert_eq!(
            finish_decoding(output, &mut writer),
            Err(Error::Io(IoError::Other(text.to_string())))
        );
        assert_eq!(writer, vec![9, 1, 2]);
    }
}

#[test]
fn decompress_goes_by_the_flag() {
    let mut out = Vec::new();
    assert_eq!(decompress(FileFlags::Uncompressed, &[0x01, b'a', 0xEE, 0xF0], &mut out), Ok(()));
    assert_eq!(out, vec![0x01, b'a', 0xEE, 0xF0]);
    let mut out = Vec::new();
    assert_eq!(decompress(FileFlags::LzssCompressed, &[0x01, b'a', 0xEE, 0xF0], &mut out), Ok(()));
    assert_eq!(out, b"aaaa");
    let mut out = Vec::new();
    assert_eq!(
        decompress(FileFlags::LzmaCompressed, &[0x01, b'a', 0xEE, 0xF0], &mut out),
        Err(Error::Io(IoError::UnexpectedEof))
    );
    assert_eq!(out, Vec::<u8>::new());
}
