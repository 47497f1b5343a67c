use iroga::error::{Error, Utf16Fault};
use iroga::iro_header::{IroFlags, IroHeader, IroVersion};
use iroga::iro_parser::parse_iro_header_v2;
use iroga::pack::ArchiveFile;
use iroga::{pack_archive, unpack_archive};

fn file(path: &str, data: &[u8]) -> ArchiveFile {
    ArchiveFile { path: path.to_string(), data: data.to_vec() }
}

fn tree() -> Vec<ArchiveFile> {
    vec![
        file("a.txt", b"A"),
        file("empty", b""),
        file("dir/\u{65e5}\u{672c}.bin", &[0, 1, 2, 0xFF, 0xFE]),
        file("dir/sub/\u{1F600}", &[0x49, 0x52, 0x4F, 0x53]),
        file("z", &vec![0xAB; 70_000]),
    ]
}

#[test]
fn packing_then_unpacking_gives_the_files_back() {
    let archive = pack_archive(&tree(), &None, &None);
    assert_eq!(unpack_archive(archive, &None, &None), Ok(tree()));
}

#[test]
fn unpacking_normalizes_the_separators() {
    let archive = pack_archive(&vec![file("a\\b/c\\d.txt", b"x")], &None, &None);
    assert_eq!(unpack_archive(archive, &None, &None), Ok(vec![file("a/b/c/d.txt", b"x")]));
}

#[test]
fn packing_twice_gives_the_same_bytes() {
    assert_eq!(pack_archive(&tree(), &None, &None), pack_archive(&tree(), &None, &None));
    let includes = Some(vec!["**/*".to_string()]);
    let excludes = Some(vec!["*.txt".to_string()]);
    assert_eq!(
        pack_archive(&tree(), &includes, &excludes),
        pack_archive(&tree(), &includes, &excludes)
    );
}

#[test]
fn the_header_of_a_built_archive_counts_its_entries() {
    let archive = pack_archive(&tree(), &None, &None);
    let (_, header) = parse_iro_header_v2(&archive).unwrap();
    assert_eq!(header, IroHeader::new(IroVersion::Two, IroFlags::Full, 16, 5));
    let archive = pack_archive(&tree(), &Some(vec!["dir/**".to_string()]), &None);
    let (_, header) = parse_iro_header_v2(&archive).unwrap();
    assert_eq!(header, IroHeader::new(IroVersion::Two, IroFlags::Full, 16, 2));
}

#[test]
fn an_empty_tree_packs_to_a_bare_header() {
    let archive = pack_archive(&Vec::new(), &None, &None);
    assert_eq!(archive.len(), 20);
    assert_eq!(archive[16..], [0, 0, 0, 0]);
    assert_eq!(unpack_archive(archive, &None, &None), Ok(Vec::new()));
}

#[test]
fn a_tree_that_is_filtered_away_packs_to_a_bare_header() {
    let archive = pack_archive(&tree(), &Some(Vec::new()), &None);
    assert_eq!(archive, pack_archive(&Vec::new(), &None, &None));
}

#[test]
fn the_contents_follow_the_index_in_its_order() {
    let archive = pack_archive(&vec![file("b", b"second"), file("a", b"first")], &None, &None);
    let index = 2 * (2 + 20);
    assert_eq!(archive.len(), 20 + index + 11);
    assert_eq!(&archive[20 + index..], b"secondfirst");
    assert_eq!(archive[20 + 10..20 + 18], (20u64 + 44).to_le_bytes());
    assert_eq!(archive[20 + 18..20 + 22], 6u32.to_le_bytes());
    assert_eq!(archive[20 + 22 + 10..20 + 22 + 18], (20u64 + 44 + 6).to_le_bytes());
    assert_eq!(archive[20 + 22 + 18..20 + 22 + 22], 5u32.to_le_bytes());
}

#[test]
fn a_path_too_long_for_its_record_does_not_come_back() {
    let long = "p".repeat(32_760);
    let archive = pack_archive(&vec![file(&long, b"x")], &None, &None);
    assert_ne!(unpack_archive(archive, &None, &None), Ok(vec![file(&long, b"x")]));
    let fits = "p".repeat(32_757);
    let archive = pack_archive(&vec![file(&fits, b"x")], &None, &None);
    assert_eq!(unpack_archive(archive, &None, &None), Ok(vec![file(&fits, b"x")]));
}

#[test]
fn a_path_in_the_index_that_is_not_utf16_is_rejected() {
    let mut archive = pack_archive(&vec![file("ab", b"x")], &None, &None);
    archive[22] = 3;
    archive[20] = 23;
    archive.remove(27);
    assert_eq!(
        unpack_archive(archive, &None, &None),
        Err(Error::InvalidUtf16(Utf16Fault::UnevenBytes))
    );
}
