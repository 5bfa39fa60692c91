//! The virtual DVD filesystem over a GCFS archive.

use gcrecomp::disc::{encode_toc, gcfs_header};
use gcrecomp::dvd::{parse_gcfs_header, parse_toc, safe_join, DvdError, GcfsError, TocEntry, VirtualFilesystem};
use gcrecomp::memory::MemoryManager;

#[test]
fn loose_mod_paths_cannot_escape_their_root() {
    let root = "mods/files";
    assert!(safe_join(root, "scene/map.bmd").is_some());
    assert!(safe_join(root, "../private.bin").is_none());
    assert!(safe_join(root, "/absolute.bin").is_none());
}

#[test]
fn safe_join_builds_the_path_under_the_root() {
    assert_eq!(safe_join("mods/files", "scene/map.bmd").as_deref(), Some("mods/files/scene/map.bmd"));
    assert_eq!(safe_join("mods/files", "./scene//map.bmd").as_deref(), Some("mods/files/scene/map.bmd"));
}

/// An archive holding `files` (path, contents), compressed with zstd.
fn archive(files: &[(&str, &[u8])]) -> Vec<u8> {
    let mut body = Vec::new();
    let mut toc = Vec::new();
    for (path, data) in files {
        let compressed = zstd::encode_all(*data, 3).unwrap();
        toc.push(TocEntry {
            path: path.to_string(),
            data_offset: 20 + body.len() as u64,
            compressed_size: compressed.len() as u64,
            decompressed_size: data.len() as u64,
        });
        body.extend_from_slice(&compressed);
    }
    let toc_offset = 20 + body.len() as u64;
    let mut out = gcfs_header(files.len() as u32, toc_offset);
    out.extend_from_slice(&body);
    out.extend_from_slice(&encode_toc(&toc).unwrap());
    out
}

#[test]
fn archive_written_by_the_builder_reads_back() {
    let a = archive(&[("opening.bnr", b"banner"), ("data/scene.szs", b"scene bytes")]);
    let (version, count, off) = parse_gcfs_header(&a[..20]).unwrap();
    assert_eq!((version, count), (1, 2));
    let toc = parse_toc(&a[off as usize..], count).unwrap();
    assert_eq!(toc[1].path, "data/scene.szs");
    assert_eq!(toc[1].decompressed_size, 11);
}

#[test]
fn open_read_close_through_the_archive() {
    let a = archive(&[("opening.bnr", b"banner"), ("Data/Scene.szs", b"scene bytes")]);
    let mut vfs = VirtualFilesystem::new(a).unwrap();
    let h = vfs.dvd_open("/data/scene.szs");
    assert_eq!(h, 1, "case-insensitive match, leading slash ignored");
    assert_eq!(vfs.dvd_get_length(h), 11);
    let mut mem = MemoryManager::new();
    let n = vfs.dvd_read(h, &mut mem, 0x8000_1000, 5, 6).unwrap();
    assert_eq!(n, 5);
    assert_eq!(mem.read_u8(0x8000_1000).unwrap(), b'b');
    assert_eq!(mem.read_u8(0x8000_1004).unwrap(), b's');
    assert!(vfs.dvd_close(h));
    assert_eq!(vfs.dvd_get_length(h), 0);
    assert!(!vfs.dvd_close(h));
    assert_eq!(vfs.dvd_read(h, &mut mem, 0x8000_1000, 1, 0), Err(DvdError::InvalidHandle(h)));
    assert_eq!(vfs.dvd_open("missing.bin"), 0);
}

#[test]
fn loose_files_override_the_archive() {
    let a = archive(&[("opening.bnr", b"banner")]);
    let mut vfs = VirtualFilesystem::new(a).unwrap();
    vfs.add_loose_file("opening.bnr".to_string(), b"modded!".to_vec());
    let h = vfs.dvd_open("opening.bnr");
    assert_eq!(vfs.dvd_get_length(h), 7);
}

#[test]
fn broken_archives_are_refused() {
    assert_eq!(VirtualFilesystem::new(vec![1, 2, 3]).err(), Some(GcfsError::TooSmall));
    let mut a = archive(&[("a", b"x")]);
    a[0] = b'X';
    assert_eq!(VirtualFilesystem::new(a).err(), Some(GcfsError::InvalidMagic));
    let mut b = gcfs_header(1, 20);
    b.extend_from_slice(&[5, 0, b'a']);
    assert_eq!(VirtualFilesystem::new(b).err(), Some(GcfsError::TruncatedPath));
}

#[test]
fn external_archives_ask_for_their_ranges() {
    let a = archive(&[("a.bin", b"hello")]);
    let (_, count, off) = parse_gcfs_header(&a[..20]).unwrap();
    let mut vfs = VirtualFilesystem::from_external(a.len() as u64, &a[..20], &a[off as usize..]).unwrap();
    assert_eq!(count, 1);
    let h = vfs.dvd_open("a.bin");
    let mut mem = MemoryManager::new();
    match vfs.dvd_read(h, &mut mem, 0x8000_2000, 5, 0) {
        Err(DvdError::NeedArchiveRange { path, offset, length }) => {
            assert_eq!(path, "a.bin");
            let bytes = &a[offset as usize..(offset + length) as usize];
            vfs.cache_compressed(&path, bytes).unwrap();
        }
        other => panic!("unexpected {other:?}"),
    }
    assert_eq!(vfs.dvd_read(h, &mut mem, 0x8000_2000, 5, 0), Ok(5));
    assert_eq!(mem.read_u8(0x8000_2004).unwrap(), b'o');
    assert_eq!(vfs.cache_compressed("b.bin", b"not zstd"), Err(DvdError::Decompression));
}
