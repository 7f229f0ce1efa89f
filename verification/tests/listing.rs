use ff_archive::archive::{Archive, ArchiveEntry, ArchiveHeader};
use ff_archive::error::ArchiveError;
use ff_archive::list::{display_offset, run, table_contents, Arguments, TableFileInfo};
use ff_archive::source::ByteSource;

fn table(data_start: u16, entries: &[(&[u8], u32, u16)]) -> Vec<u8> {
    let mut bytes = Vec::new();
    bytes.extend_from_slice(&data_start.to_be_bytes());
    bytes.extend_from_slice(&(entries.len() as u16).to_be_bytes());
    for (name, offset, size) in entries {
        bytes.extend_from_slice(&(name.len() as u16).to_be_bytes());
        bytes.extend_from_slice(name);
        bytes.extend_from_slice(&offset.to_be_bytes());
        bytes.extend_from_slice(&size.to_be_bytes());
    }
    bytes
}

fn row(size: u64, offset: u32, name: &str) -> TableFileInfo {
    TableFileInfo { size, offset, file_name: name.to_string() }
}

fn named(archive: &str) -> Arguments {
    Arguments { archive: archive.to_string() }
}

#[test]
fn display_offset_adds_data_start() {
    assert_eq!(display_offset(16, 0), Some(16));
    assert_eq!(display_offset(0, 0), Some(0));
    assert_eq!(display_offset(300, 70_000), Some(70_300));
    assert_eq!(display_offset(65535, u32::MAX - 65535), Some(u32::MAX));
}

#[test]
fn display_offset_does_not_wrap() {
    assert_eq!(display_offset(1, u32::MAX), None);
    assert_eq!(display_offset(65535, u32::MAX - 65534), None);
    assert_eq!(display_offset(65535, u32::MAX), None);
}

#[test]
fn one_entry_archive_lists_its_absolute_offset() {
    let mut bytes = vec![0x00, 0x21, 0x00, 0x01];
    bytes.extend_from_slice(&[0x00, 0x05]);
    bytes.extend_from_slice(b"a.txt");
    bytes.extend_from_slice(&[0x00, 0x00, 0x00, 0x00, 0x00, 0x05]);
    bytes.extend_from_slice(&[0u8; 16]);
    bytes.extend_from_slice(&[0x48, 0x65, 0x6C, 0x6C, 0x6F]);
    let mut source = ByteSource::new(bytes);
    let listing = run(&named("one.ff"), &mut source).unwrap();
    assert_eq!(listing.archive, "one.ff");
    assert_eq!(listing.physical_size, 38);
    assert_eq!(listing.file_count, 1);
    assert_eq!(listing.rows, vec![row(5, 33, "a.txt")]);
    assert_eq!(source.position(), 17);
}

#[test]
fn rows_follow_the_table() {
    let bytes = table(1000, &[(b"c", 500, 3), (b"a", 0, 65535), (b"c", 70_000, 0)]);
    let mut source = ByteSource::new(bytes.clone());
    let listing = run(&named("x"), &mut source).unwrap();
    assert_eq!(listing.file_count, 3);
    assert_eq!(listing.rows.len(), 3);
    assert_eq!(listing.rows, vec![row(3, 1500, "c"), row(65535, 1000, "a"), row(0, 71_000, "c")]);
    assert_eq!(listing.physical_size, bytes.len() as u64);
}

#[test]
fn listing_does_not_need_the_payload() {
    let bytes = table(4000, &[(b"gone", 10, 20)]);
    let mut source = ByteSource::new(bytes.clone());
    let listing = run(&named("x"), &mut source).unwrap();
    assert_eq!(listing.rows, vec![row(20, 4010, "gone")]);
    assert_eq!(source.position(), bytes.len() as u64);
}

#[test]
fn moving_data_start_moves_every_offset_alike() {
    let entries: [(&[u8], u32, u16); 3] = [(b"p", 0, 1), (b"q", 77, 2), (b"r", 1_000_000, 3)];
    let near = run(&named("x"), &mut ByteSource::new(table(40, &entries))).unwrap();
    let far = run(&named("x"), &mut ByteSource::new(table(940, &entries))).unwrap();
    assert_eq!(near.rows.len(), far.rows.len());
    for (a, b) in near.rows.iter().zip(far.rows.iter()) {
        assert_eq!(b.offset - a.offset, 900);
        assert_eq!(a.size, b.size);
        assert_eq!(a.file_name, b.file_name);
    }
    assert_eq!(far.rows[1].offset, 1017);
}

#[test]
fn truncated_table_lists_nothing() {
    let bytes = table(64, &[(b"first", 0, 3), (b"second", 3, 9)]);
    for cut in 0..bytes.len() {
        let mut source = ByteSource::new(bytes[..cut].to_vec());
        assert_eq!(run(&named("x"), &mut source), Err(ArchiveError::ParseError));
        assert_eq!(source.position(), 0);
    }
}

#[test]
fn offset_beyond_32_bits_is_an_error() {
    let bytes = table(2, &[(b"fine", 5, 1), (b"far", u32::MAX - 1, 1)]);
    let mut source = ByteSource::new(bytes.clone());
    assert_eq!(run(&named("x"), &mut source), Err(ArchiveError::OffsetOverflow));
    assert_eq!(source.position(), bytes.len() as u64);

    let bytes = table(1, &[(b"fine", 5, 1), (b"far", u32::MAX - 1, 1)]);
    let listing = run(&named("x"), &mut ByteSource::new(bytes)).unwrap();
    assert_eq!(listing.rows[1].offset, u32::MAX);
}

#[test]
fn table_contents_projects_each_entry() {
    let archive = Archive {
        header: ArchiveHeader { data_start: 10, file_count: 2 },
        entries: vec![
            ArchiveEntry { file_name: "x".to_string(), offset: 1, size: 2 },
            ArchiveEntry { file_name: "y".to_string(), offset: 0, size: 0 },
        ],
    };
    assert_eq!(table_contents(&archive), Ok(vec![row(2, 11, "x"), row(0, 10, "y")]));
    let empty = Archive { header: ArchiveHeader { data_start: 10, file_count: 0 }, entries: vec![] };
    assert_eq!(table_contents(&empty), Ok(vec![]));
    let wide = Archive {
        header: ArchiveHeader { data_start: 10, file_count: 1 },
        entries: vec![ArchiveEntry { file_name: "z".to_string(), offset: u32::MAX - 9, size: 2 }],
    };
    assert_eq!(table_contents(&wide), Err(ArchiveError::OffsetOverflow));
}

#[test]
fn invalid_name_bytes_are_listed_replaced() {
    let bytes = table(9, &[(&[b'a', 0xF0, 0x28, b'b'], 1, 2)]);
    let listing = run(&named("x"), &mut ByteSource::new(bytes)).unwrap();
    assert_eq!(listing.rows, vec![row(2, 10, "a\u{FFFD}(b")]);
}

#[test]
fn empty_archive_lists_no_rows() {
    let listing = run(&named("empty.ff"), &mut ByteSource::new(vec![0, 4, 0, 0, 1, 2, 3])).unwrap();
    assert_eq!(listing.file_count, 0);
    assert!(listing.rows.is_empty());
    assert_eq!(listing.physical_size, 7);
    assert_eq!(listing.archive, "empty.ff");
}
