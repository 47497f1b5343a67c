use iroga::error::{Error, ParseFault};
use iroga::iro_header::{
    IroFlags, IroHeader, IroVersion, IRO_HEADER_BYTE_SIZE, IRO_HEADER_SIZE_FIELD, IRO_SIG,
};
use iroga::iro_parser::parse_iro_header_v2;

fn header_of(version: [u8; 4], flags: [u8; 4], size: [u8; 4], count: [u8; 4]) -> Vec<u8> {
    let mut bytes = vec![0x49, 0x52, 0x4F, 0x53];
    bytes.extend(version);
    bytes.extend(flags);
    bytes.extend(size);
    bytes.extend(count);
    bytes
}

#[test]
fn the_signature_spells_iros() {
    assert_eq!(IRO_SIG.to_le_bytes(), *b"IROS");
    assert_eq!(IRO_HEADER_BYTE_SIZE, 20);
}

#[test]
fn new_header_holds_its_fields() {
    let header = IroHeader::new(IroVersion::Zero, IroFlags::Patch, 16, 7);
    assert_eq!(header.version, IroVersion::Zero);
    assert_eq!(header.flags, IroFlags::Patch);
    assert_eq!(header.size, 16);
    assert_eq!(header.num_files, 7);
}

#[test]
fn header_bytes_of_the_newer_version() {
    let bytes = Vec::from(IroHeader::new(IroVersion::Two, IroFlags::Full, 16, 3));
    assert_eq!(
        bytes,
        vec![
            0x49, 0x52, 0x4F, 0x53, 0x02, 0x00, 0x01, 0x00, 0x00, 0x00, 0x00, 0x00, 0x10, 0x00,
            0x00, 0x00, 0x03, 0x00, 0x00, 0x00
        ]
    );
}

#[test]
fn header_bytes_of_the_older_version_and_a_patch() {
    let bytes = Vec::from(IroHeader::new(IroVersion::Zero, IroFlags::Patch, 16, 0x0102_0304));
    assert_eq!(
        bytes,
        vec![
            0x49, 0x52, 0x4F, 0x53, 0x00, 0x00, 0x01, 0x00, 0x01, 0x00, 0x00, 0x00, 0x10, 0x00,
            0x00, 0x00, 0x04, 0x03, 0x02, 0x01
        ]
    );
}

#[test]
fn header_bytes_always_hold_sixteen_as_the_size() {
    let bytes = Vec::from(IroHeader::new(IroVersion::Two, IroFlags::Full, 99, 3));
    assert_eq!(bytes, Vec::from(IroHeader::new(IroVersion::Two, IroFlags::Full, 16, 3)));
    assert_eq!(bytes[12..16], [16, 0, 0, 0]);
    assert_eq!(IRO_HEADER_SIZE_FIELD, 16);
    let (_, read) = parse_iro_header_v2(&bytes).unwrap();
    assert_eq!(read.size, 16);
}

#[test]
fn header_is_read_back_with_the_bytes_behind_it() {
    let header = IroHeader::new(IroVersion::Two, IroFlags::Patch, 16, 0xFFFF_FFFF);
    let mut bytes = Vec::from(header);
    bytes.extend([9, 8, 7]);
    let (rest, read) = parse_iro_header_v2(&bytes).unwrap();
    assert_eq!(read, header);
    assert_eq!(rest, &[9, 8, 7]);
}

#[test]
fn bad_magic_is_a_validation_error() {
    let mut bytes = Vec::from(IroHeader::new(IroVersion::Two, IroFlags::Full, 16, 0));
    bytes[0] = 0x4A;
    assert_eq!(parse_iro_header_v2(&bytes), Err(Error::CannotParseBinary(ParseFault::Tag)));
}

#[test]
fn a_signature_cut_short_is_a_tag_fault() {
    assert_eq!(
        parse_iro_header_v2(&[0x49, 0x52, 0x4F]),
        Err(Error::CannotParseBinary(ParseFault::Tag))
    );
    assert_eq!(parse_iro_header_v2(&[]), Err(Error::CannotParseBinary(ParseFault::Tag)));
}

#[test]
fn a_header_cut_short_is_an_eof_fault() {
    let bytes = header_of([2, 0, 1, 0], [0, 0, 0, 0], [16, 0, 0, 0], [0, 0, 0, 0]);
    assert_eq!(parse_iro_header_v2(&bytes[..4]), Err(Error::CannotParseBinary(ParseFault::Eof)));
    assert_eq!(parse_iro_header_v2(&bytes[..11]), Err(Error::CannotParseBinary(ParseFault::Eof)));
    assert_eq!(parse_iro_header_v2(&bytes[..16]), Err(Error::CannotParseBinary(ParseFault::Eof)));
    assert_eq!(parse_iro_header_v2(&bytes[..19]), Err(Error::CannotParseBinary(ParseFault::Eof)));
}

#[test]
fn a_size_other_than_sixteen_is_a_tag_fault() {
    let bytes = header_of([2, 0, 1, 0], [0, 0, 0, 0], [17, 0, 0, 0], [0, 0, 0, 0]);
    assert_eq!(parse_iro_header_v2(&bytes), Err(Error::CannotParseBinary(ParseFault::Tag)));
    assert_eq!(parse_iro_header_v2(&bytes[..14]), Err(Error::CannotParseBinary(ParseFault::Tag)));
}

#[test]
fn the_size_is_checked_before_the_version_is_looked_up() {
    let bytes = header_of([9, 9, 9, 9], [9, 9, 9, 9], [17, 0, 0, 0], [0, 0, 0, 0]);
    assert_eq!(parse_iro_header_v2(&bytes), Err(Error::CannotParseBinary(ParseFault::Tag)));
    assert_eq!(parse_iro_header_v2(&bytes[..19]), Err(Error::CannotParseBinary(ParseFault::Tag)));
}

#[test]
fn an_unknown_version_carries_its_raw_value() {
    let bytes = header_of([1, 0, 1, 0], [0, 0, 0, 0], [16, 0, 0, 0], [0, 0, 0, 0]);
    assert_eq!(parse_iro_header_v2(&bytes), Err(Error::InvalidIroVersion(0x10001)));
    let bytes = header_of([0xFF, 0xFF, 0xFF, 0xFF], [0, 0, 0, 0], [16, 0, 0, 0], [0, 0, 0, 0]);
    assert_eq!(parse_iro_header_v2(&bytes), Err(Error::InvalidIroVersion(-1)));
}

#[test]
fn unknown_flags_carry_their_raw_value() {
    let bytes = header_of([2, 0, 1, 0], [2, 0, 0, 0], [16, 0, 0, 0], [0, 0, 0, 0]);
    assert_eq!(parse_iro_header_v2(&bytes), Err(Error::InvalidIroFlags(2)));
    let bytes = header_of([0, 0, 1, 0], [0, 0, 0, 0x80], [16, 0, 0, 0], [0, 0, 0, 0]);
    assert_eq!(parse_iro_header_v2(&bytes), Err(Error::InvalidIroFlags(i32::MIN)));
}

#[test]
fn the_version_is_looked_up_before_the_flags() {
    let bytes = header_of([3, 0, 1, 0], [5, 0, 0, 0], [16, 0, 0, 0], [0, 0, 0, 0]);
    assert_eq!(parse_iro_header_v2(&bytes), Err(Error::InvalidIroVersion(0x10003)));
}

#[test]
fn flags_from_their_number() {
    assert_eq!(IroFlags::try_from(0), Ok(IroFlags::Full));
    assert_eq!(IroFlags::try_from(1), Ok(IroFlags::Patch));
    assert_eq!(IroFlags::try_from(2), Err(Error::InvalidIroFlags(2)));
    assert_eq!(IroFlags::try_from(-1), Err(Error::InvalidIroFlags(-1)));
    assert_eq!(IroFlags::Full.code(), 0);
    assert_eq!(IroFlags::Patch.code(), 1);
}

#[test]
fn version_from_its_number() {
    assert_eq!(IroVersion::try_from(0x10000), Ok(IroVersion::Zero));
    assert_eq!(IroVersion::try_from(0x10002), Ok(IroVersion::Two));
    assert_eq!(IroVersion::try_from(0x10001), Err(Error::InvalidIroVersion(0x10001)));
    assert_eq!(IroVersion::try_from(0), Err(Error::InvalidIroVersion(0)));
    assert_eq!(IroVersion::Zero.code(), 0x10000);
    assert_eq!(IroVersion::Two.code(), 0x10002);
}

#[test]
fn flags_and_version_in_words() {
    assert_eq!(IroFlags::Full.to_string(), "Full IRO");
    assert_eq!(IroFlags::Patch.to_string(), "Patch IRO");
    assert_eq!(IroVersion::Zero.to_string(), "0x10000");
    assert_eq!(IroVersion::Two.to_string(), "0x10002");
}
