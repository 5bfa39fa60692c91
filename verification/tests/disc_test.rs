//! Disc image preparation: header words, DOL size, filesystem table, archive layout.

use gcrecomp::disc::{
    build_gcfs_archive, check_image_size, disc_dol_offset, disc_game_id, dol_extent, dol_file_size, encode_toc, fst_location,
    gcfs_header, parse_fst, read_u32_be, sha256_hex, to_hex_lower, DiscError, StreamHasher,
};
use gcrecomp::dvd::{TocEntry, VirtualFilesystem};
use gcrecomp::memory::MemoryManager;

fn put(b: &mut [u8], at: usize, v: u32) {
    b[at..at + 4].copy_from_slice(&v.to_be_bytes());
}

#[test]
fn reads_big_endian_words() {
    assert_eq!(read_u32_be(&[0, 0x12, 0x34, 0x56, 0x78], 1), 0x1234_5678);
}

#[test]
fn dol_size_is_the_furthest_section_end() {
    let mut h = [0u8; 256];
    put(&mut h, 0x00, 0x100);
    put(&mut h, 0x90, 0x2000);
    put(&mut h, 0x1c + 4 * 3, 0x3000);
    put(&mut h, 0xac + 4 * 3, 0x10);
    assert_eq!(dol_file_size(&h), Ok(0x3010));
    assert_eq!(dol_file_size(&[0u8; 256]), Err(DiscError::NoValidSections));
    assert_eq!(dol_extent(0x1000, &h, 0x4010), Ok(0x3010));
    assert_eq!(dol_extent(0x1001, &h, 0x4010), Err(DiscError::DolPastEnd));
}

#[test]
fn disc_header_fields() {
    let mut header = vec![0u8; 0x440];
    header[..6].copy_from_slice(b"GMSE01");
    put(&mut header, 0x420, 0x1_0000);
    put(&mut header, 0x424, 0x40_0000);
    put(&mut header, 0x428, 0x30);
    assert_eq!(disc_game_id(&header), "GMSE01");
    assert_eq!(disc_dol_offset(&header), 0x1_0000);
    assert_eq!(fst_location(&header), Ok((0x40_0000, 0x30)));
    put(&mut header, 0x428, 11);
    assert_eq!(fst_location(&header), Err(DiscError::InvalidFst));
    assert_eq!(check_image_size(0x43f), Err(DiscError::TooSmall));
    assert_eq!(check_image_size(0x440), Ok(()));
}

/// A filesystem table: root, dir `data` holding `a.bin`, then top-level `b.bin`.
fn sample_fst() -> Vec<u8> {
    let names = b"data\0a.bin\0b.bin\0";
    let mut fst = vec![0u8; 4 * 12];
    // root: directory, 4 entries
    fst[0] = 1;
    put(&mut fst, 8, 4);
    // entry 1: directory "data" (name offset 0), ends before entry 3
    fst[12] = 1;
    put(&mut fst, 12 + 8, 3);
    // entry 2: file "a.bin" (name offset 5), at 0x1000, 10 bytes
    fst[24 + 3] = 5;
    put(&mut fst, 24 + 4, 0x1000);
    put(&mut fst, 24 + 8, 10);
    // entry 3: file "b.bin" (name offset 11), at 0x2000, 20 bytes
    fst[36 + 3] = 11;
    put(&mut fst, 36 + 4, 0x2000);
    put(&mut fst, 36 + 8, 20);
    fst.extend_from_slice(names);
    fst
}

#[test]
fn filesystem_table_lists_files_with_directories() {
    let files = parse_fst(&sample_fst()).unwrap();
    let got: Vec<(String, u64, u64)> = files.into_iter().map(|f| (f.path, f.disc_offset, f.size)).collect();
    assert_eq!(got, vec![("data/a.bin".to_string(), 0x1000, 10), ("b.bin".to_string(), 0x2000, 20)]);
}

#[test]
fn malformed_filesystem_tables_are_refused() {
    let mut fst = sample_fst();
    put(&mut fst, 8, 0);
    assert_eq!(parse_fst(&fst).err(), Some(DiscError::FstMalformed));
    let mut fst = sample_fst();
    put(&mut fst, 8, 100);
    assert_eq!(parse_fst(&fst).err(), Some(DiscError::FstMalformed));
    let mut fst = sample_fst();
    fst[36 + 3] = 200;
    assert_eq!(parse_fst(&fst).err(), Some(DiscError::NameOutsideTable));
    let mut fst = sample_fst();
    let last = fst.len() - 1;
    fst[last] = b'x';
    assert_eq!(parse_fst(&fst).err(), Some(DiscError::UnterminatedName));
}

#[test]
fn archive_header_and_toc_layout() {
    let h = gcfs_header(2, 0x1234);
    assert_eq!(&h[..4], b"GCFS");
    assert_eq!(&h[4..8], &1u32.to_le_bytes());
    assert_eq!(&h[8..12], &2u32.to_le_bytes());
    assert_eq!(&h[12..20], &0x1234u64.to_le_bytes());
    let toc = encode_toc(&[TocEntry { path: "a/b".to_string(), data_offset: 20, compressed_size: 7, decompressed_size: 9 }]).unwrap();
    let mut want = vec![3, 0, b'a', b'/', b'b'];
    want.extend_from_slice(&20u64.to_le_bytes());
    want.extend_from_slice(&7u64.to_le_bytes());
    want.extend_from_slice(&9u64.to_le_bytes());
    assert_eq!(toc, want);
    let long = TocEntry { path: "x".repeat(70_000), data_offset: 0, compressed_size: 0, decompressed_size: 0 };
    assert_eq!(encode_toc(&[long]).err(), Some(DiscError::PathTooLong));
}

#[test]
fn sha256_in_hex() {
    assert_eq!(sha256_hex(b"abc"), "ba7816bf8f01cfea414140de5dae2223b00361a396177a9cb410ff61f20015ad");
    assert_eq!(to_hex_lower(&[0x00, 0x0f, 0xa0]), "000fa0");
}

#[test]
fn packed_disc_files_read_back() {
    let a: Vec<u8> = (0u8..10).collect();
    let b: Vec<u8> = vec![7u8; 20];
    let archive = build_gcfs_archive(&sample_fst(), &vec![a.clone(), b.clone()]).unwrap();
    assert_eq!(&archive[..4], b"GCFS");
    let mut vfs = VirtualFilesystem::new(archive).unwrap();
    let mut mem = MemoryManager::new();
    let h = vfs.dvd_open("data/a.bin");
    assert_eq!(vfs.dvd_get_length(h), 10);
    assert_eq!(vfs.dvd_read(h, &mut mem, 0x8000_0000, 10, 0), Ok(10));
    for i in 0..10u32 {
        assert_eq!(mem.read_u8(0x8000_0000 + i), Ok(i as u8));
    }
    let h = vfs.dvd_open("b.bin");
    assert_eq!(vfs.dvd_read(h, &mut mem, 0x8000_0100, 20, 0), Ok(20));
    assert_eq!(mem.read_u8(0x8000_0113), Ok(7));
}

#[test]
fn packing_checks_file_sizes() {
    let short = build_gcfs_archive(&sample_fst(), &vec![vec![0u8; 10], vec![0u8; 3]]);
    assert_eq!(short, Err(DiscError::FileEndedEarly { path: "b.bin".to_string(), expected: 20, read: 3 }));
    let missing = build_gcfs_archive(&sample_fst(), &vec![]);
    assert_eq!(missing, Err(DiscError::FileEndedEarly { path: "data/a.bin".to_string(), expected: 10, read: 0 }));
    let mut bad = sample_fst();
    bad[8..12].copy_from_slice(&0u32.to_be_bytes());
    assert_eq!(build_gcfs_archive(&bad, &vec![]), Err(DiscError::FstMalformed));
}

#[test]
fn streamed_hash_matches_one_shot() {
    let mut h = StreamHasher::new();
    h.update(b"a");
    h.update(b"bc");
    assert_eq!(h.finalize_hex(), sha256_hex(b"abc"));
    assert_eq!(StreamHasher::new().finalize_hex(), "e3b0c44298fc1c149afbf4c8996fb92427ae41e4649b934ca495991b7852b855");
}
