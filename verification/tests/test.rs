use iroga::pack::ArchiveFile;
use iroga::{pack_archive, unpack_archive};

/// The bytes that a run of hexadecimal digit pairs spells; blanks are skipped.
fn hex(lines: &[&str]) -> Vec<u8> {
    let mut bytes = Vec::new();
    for line in lines {
        for pair in line.split_whitespace() {
            bytes.push(u8::from_str_radix(pair, 16).unwrap());
        }
    }
    bytes
}

/// The file at `path`, named relative to the directory `root`.
fn file_below(root: &str, path: &str, content: &str) -> ArchiveFile {
    let relative = path.strip_prefix(root).unwrap().trim_start_matches('/');
    ArchiveFile { path: relative.to_string(), data: content.as_bytes().to_vec() }
}

#[test]
pub fn pack_single_file() {
    let expected_bytes = hex(&[
        "49 52 4f 53 02 00 01 00   00 00 00 00 10 00 00 00",
        "01 00 00 00 24 00 10 00   66 00 69 00 6c 00 65 00",
        "2e 00 74 00 78 00 74 00   00 00 00 00 38 00 00 00",
        "00 00 00 00 17 00 00 00   48 65 6c 6c 6f 20 57 6f",
        "72 6c 64 21 0d 0a 0d 0a   48 69 21 0d 0a 0d 0a   ",
    ]);
    let files = vec![file_below("single", "single/file.txt", "Hello World!\r\n\r\nHi!\r\n\r\n")];

    let archive = pack_archive(&files, &None, &None);

    assert_eq!(archive, expected_bytes);
}

#[test]
pub fn pack_multiple_files() {
    let expected_bytes = hex(&[
        "49 52 4f 53 02 00 01 00   00 00 00 00 10 00 00 00",
        "03 00 00 00 1e 00 0a 00   61 00 2e 00 74 00 78 00",
        "74 00 00 00 00 00 76 00   00 00 00 00 00 00 01 00",
        "00 00 1e 00 0a 00 62 00   2e 00 74 00 78 00 74 00",
        "00 00 00 00 77 00 00 00   00 00 00 00 01 00 00 00",
        "26 00 12 00 64 00 69 00   72 00 5c 00 63 00 2e 00",
        "74 00 78 00 74 00 00 00   00 00 78 00 00 00 00 00",
        "00 00 01 00 00 00 41 42   43                     ",
    ]);
    let files = vec![
        file_below("multiple", "multiple/a.txt", "A"),
        file_below("multiple", "multiple/b.txt", "B"),
        file_below("multiple", "multiple/dir/c.txt", "C"),
    ];

    let archive = pack_archive(&files, &None, &None);

    assert_eq!(archive, expected_bytes);
}

#[test]
pub fn unpack_single_file() {
    let iro_bytes = hex(&[
        "49 52 4f 53 02 00 01 00   00 00 00 00 10 00 00 00",
        "01 00 00 00 24 00 10 00   66 00 69 00 6c 00 65 00",
        "2e 00 74 00 78 00 74 00   00 00 00 00 38 00 00 00",
        "00 00 00 00 17 00 00 00   48 65 6c 6c 6f 20 57 6f",
        "72 6c 64 21 0d 0a 0d 0a   48 69 21 0d 0a 0d 0a   ",
    ]);

    let files = unpack_archive(iro_bytes, &None, &None).unwrap();

    assert_eq!(
        files,
        vec![file_below("single", "single/file.txt", "Hello World!\r\n\r\nHi!\r\n\r\n")]
    );
}

#[test]
pub fn unpack_multiple_files() {
    let iro_bytes = hex(&[
        "49 52 4f 53 02 00 01 00   00 00 00 00 10 00 00 00",
        "03 00 00 00 1e 00 0a 00   61 00 2e 00 74 00 78 00",
        "74 00 00 00 00 00 76 00   00 00 00 00 00 00 01 00",
        "00 00 1e 00 0a 00 62 00   2e 00 74 00 78 00 74 00",
        "00 00 00 00 77 00 00 00   00 00 00 00 01 00 00 00",
        "26 00 12 00 64 00 69 00   72 00 5c 00 63 00 2e 00",
        "74 00 78 00 74 00 00 00   00 00 78 00 00 00 00 00",
        "00 00 01 00 00 00 41 42   43                     ",
    ]);

    let files = unpack_archive(iro_bytes, &None, &None).unwrap();

    assert_eq!(
        files,
        vec![
            file_below("multiple", "multiple/a.txt", "A"),
            file_below("multiple", "multiple/b.txt", "B"),
            file_below("multiple", "multiple/dir/c.txt", "C"),
        ]
    );
}
