//! Reading a GameCube disc image: the boot header, the size of the DOL it
//! points at, the filesystem table (FST), and the byte layout of the GCFS
//! archive that packs the disc's files for the runtime.
use vstd::prelude::*;
use vstd::utf8::encode_utf8;
use vstd::string::*;
use crate::memory::pow256;
use crate::dvd::{GcfsError, ReadPlan, TocEntry, TocRecord, VfsView, embedded_toc, named_index, open_index, read_plan, toc_index, external_toc, le_value, parse_entries, parse_header, toc_record, zstd_decoded};
use crate::text::{from_utf8_lossy, hex_pad, lossy_text, push_char, push_hex_pad, push_str};
use sha2::{Digest, Sha256};

verus! {

/// Why a disc image could not be prepared.
#[derive(Debug, PartialEq, Eq)]
pub enum DiscError {
    /// The image is shorter than the disc header.
    TooSmall,
    /// No DOL section ends past the DOL header.
    NoValidSections,
    /// The DOL extends past the end of the image.
    DolPastEnd,
    /// The header's filesystem-table offset is zero or its size is below 12.
    InvalidFst,
    /// The entry count times 12 does not fit in `usize`.
    FstEntryCountOverflow,
    /// The entry count is zero or the entries do not fit in the table.
    FstMalformed,
    /// A name offset does not fit in `usize` when added to the table start.
    NameOffsetOverflow,
    /// A name starts outside the string table.
    NameOutsideTable,
    /// A name has no terminating zero byte.
    UnterminatedName,
    /// A path is longer than 65535 bytes.
    PathTooLong,
    /// A file produced fewer bytes than its recorded size.
    FileEndedEarly { path: String, expected: u64, read: u64 },
    /// Compressing a file failed.
    CompressionFailed { path: String },
    /// An archive offset does not fit in 64 bits.
    ArchiveTooLarge,
}

/// The big-endian 32-bit word at `at`.
pub open spec fn be_u32(s: Seq<u8>, at: int) -> u32 {
    (s[at] as nat * 0x100_0000 + s[at + 1] as nat * 0x1_0000 + s[at + 2] as nat * 0x100 + s[at + 3] as nat) as u32
}

/// Reads the big-endian word at `offset`.
pub fn read_u32_be(data: &[u8], offset: usize) -> (v: u32)
    requires
        offset + 4 <= data@.len(),
    ensures
        v == be_u32(data@, offset as int),
{
    let a = data[offset] as u32;
    let b = data[offset + 1] as u32;
    let c = data[offset + 2] as u32;
    let d = data[offset + 3] as u32;
    a * 0x100_0000 + b * 0x1_0000 + c * 0x100 + d
}

/// `a + b`, saturating at `usize::MAX`.
pub open spec fn sat_add(a: nat, b: nat) -> nat {
    if a + b > usize::MAX { usize::MAX as nat } else { a + b }
}

/// End of DOL section slot `i` (0..7 text, 7..18 data): offset plus size.
pub open spec fn dol_slot_end(h: Seq<u8>, i: int) -> nat {
    if i < 7 {
        sat_add(be_u32(h, 4 * i) as nat, be_u32(h, 0x90 + 4 * i) as nat)
    } else {
        sat_add(be_u32(h, 0x1c + 4 * (i - 7)) as nat, be_u32(h, 0xac + 4 * (i - 7)) as nat)
    }
}

/// The largest end among the first `n` section slots (0 when `n` is 0).
pub open spec fn dol_max_end(h: Seq<u8>, n: nat) -> nat
    decreases n,
{
    if n == 0 {
        0
    } else {
        let prev = dol_max_end(h, (n - 1) as nat);
        let e = dol_slot_end(h, n - 1);
        if e > prev { e } else { prev }
    }
}

/// The size of the DOL whose 256-byte header is `header`: the furthest end of
/// any of its 18 sections. Fails when that end does not pass the header.
pub fn dol_file_size(header: &[u8; 256]) -> (r: Result<usize, DiscError>)
    ensures
        match r {
            Ok(n) => n == dol_max_end(header@, 18) && n >= 0x100,
            Err(e) => e == DiscError::NoValidSections && dol_max_end(header@, 18) < 0x100,
        },
{
    let h: &[u8] = header.as_slice();
    let mut end: usize = 0;
    let mut i: usize = 0;
    while i < 18
        invariant
            h@ == header@,
            h@.len() == 256,
            i <= 18,
            end == dol_max_end(h@, i as nat),
        decreases 18 - i,
    {
        let (off_at, size_at) = if i < 7 { (i * 4, 0x90 + i * 4) } else { (0x1c + (i - 7) * 4, 0xac + (i - 7) * 4) };
        let offset = read_u32_be(h, off_at) as usize;
        let size = read_u32_be(h, size_at) as usize;
        let e = offset.saturating_add(size);
        if e > end {
            end = e;
        }
        i = i + 1;
    }
    if end < 0x100 {
        Err(DiscError::NoValidSections)
    } else {
        Ok(end)
    }
}


/// Size of the disc header (boot block and BI2) read before anything else.
pub const DISC_HEADER_SIZE: u64 = 0x440;

/// An image must hold at least the disc header.
pub fn check_image_size(source_size: u64) -> (r: Result<(), DiscError>)
    ensures
        r is Ok <==> source_size >= DISC_HEADER_SIZE,
        r is Err ==> r == Err::<(), DiscError>(DiscError::TooSmall),
{
    if source_size < DISC_HEADER_SIZE { Err(DiscError::TooSmall) } else { Ok(()) }
}

/// The six-character game ID at the start of the disc header.
pub fn disc_game_id(header: &[u8]) -> (r: String)
    requires
        header@.len() >= 6,
    ensures
        r@ == lossy_text(header@.take(6)),
{
    let id = vstd::slice::slice_subrange(header, 0, 6);
    assert(id@ =~= header@.take(6));
    from_utf8_lossy(id)
}

/// Where the DOL starts on disc (header word at 0x420).
pub fn disc_dol_offset(header: &[u8]) -> (r: u64)
    requires
        header@.len() >= 0x440,
    ensures
        r == be_u32(header@, 0x420) as u64,
{
    read_u32_be(header, 0x420) as u64
}

/// `a + b`, saturating at `u64::MAX`.
pub open spec fn sat_add64(a: u64, b: u64) -> u64 {
    if a + b > u64::MAX { u64::MAX } else { (a + b) as u64 }
}

/// The DOL's size from its header, checked (with a saturating sum) to end
/// inside an image of `source_size` bytes.
pub fn dol_extent(dol_offset: u64, dol_header: &[u8; 256], source_size: u64) -> (r: Result<usize, DiscError>)
    ensures
        match r {
            Ok(n) => n == dol_max_end(dol_header@, 18) && n >= 0x100
                && sat_add64(dol_offset, n as u64) <= source_size,
            Err(e) => (dol_max_end(dol_header@, 18) < 0x100 && e == DiscError::NoValidSections)
                || (dol_max_end(dol_header@, 18) >= 0x100 && e == DiscError::DolPastEnd
                    && sat_add64(dol_offset, dol_max_end(dol_header@, 18) as u64) > source_size),
        },
{
    let size = match dol_file_size(dol_header) {
        Ok(n) => n,
        Err(e) => { return Err(e); },
    };
    if dol_offset.saturating_add(size as u64) > source_size {
        return Err(DiscError::DolPastEnd);
    }
    Ok(size)
}

/// Offset and size of the filesystem table (header words at 0x424 and 0x428).
/// Fails when the offset is zero or the size is below 12.
pub fn fst_location(header: &[u8]) -> (r: Result<(u64, usize), DiscError>)
    requires
        header@.len() >= 0x440,
    ensures
        match r {
            Ok((off, size)) => off == be_u32(header@, 0x424) as u64 && size == be_u32(header@, 0x428) as usize
                && off != 0 && size >= 12,
            Err(e) => e == DiscError::InvalidFst && (be_u32(header@, 0x424) == 0 || be_u32(header@, 0x428) < 12),
        },
{
    let off = read_u32_be(header, 0x424) as u64;
    let size = read_u32_be(header, 0x428) as usize;
    if off == 0 || size < 12 {
        return Err(DiscError::InvalidFst);
    }
    Ok((off, size))
}

// ---------------------------------------------------------------- filesystem table

/// One file of the disc filesystem: its full path, disc offset and size.
#[derive(Debug)]
pub struct DiscArchiveEntry {
    pub path: String,
    pub disc_offset: u64,
    pub size: u64,
}

/// The plain values of a file entry.
pub open spec fn file_record(e: DiscArchiveEntry) -> (Seq<char>, u64, u64) {
    (e.path@, e.disc_offset, e.size)
}

/// Index of the first zero byte at or after `start`.
pub open spec fn first_zero_from(s: Seq<u8>, start: int) -> Option<int>
    decreases s.len() - start,
{
    if start >= s.len() || start < 0 {
        None
    } else if s[start] == 0 {
        Some(start)
    } else {
        first_zero_from(s, start + 1)
    }
}

/// The name at `off` in the string table that follows `es` bytes of entries.
pub open spec fn fst_name(fst: Seq<u8>, es: nat, off: nat) -> Result<Seq<char>, DiscError> {
    let start = es + off;
    if start > usize::MAX {
        Err(DiscError::NameOffsetOverflow)
    } else if start >= fst.len() {
        Err(DiscError::NameOutsideTable)
    } else {
        match first_zero_from(fst, start as int) {
            None => Err(DiscError::UnterminatedName),
            Some(z) => Ok(lossy_text(fst.subrange(start as int, z))),
        }
    }
}

/// The open directories at entry `index`: those whose end index lies beyond it.
pub open spec fn pop_dirs(dirs: Seq<(Seq<char>, nat)>, index: nat) -> Seq<(Seq<char>, nat)>
    decreases dirs.len(),
{
    if dirs.len() > 0 && index >= dirs.last().1 { pop_dirs(dirs.drop_last(), index) } else { dirs }
}

/// The path prefix of the open directories: each name followed by `/`.
pub open spec fn dir_prefix(dirs: Seq<(Seq<char>, nat)>) -> Seq<char>
    decreases dirs.len(),
{
    if dirs.len() == 0 { seq![] } else { dir_prefix(dirs.drop_last()) + dirs.last().0 + "/"@ }
}

/// The 24-bit name offset of entry `index`.
pub open spec fn name_offset(fst: Seq<u8>, index: int) -> nat {
    fst[12 * index + 1] as nat * 0x1_0000 + fst[12 * index + 2] as nat * 0x100 + fst[12 * index + 3] as nat
}

/// Files and open directories after walking entries `1..n` (entry 0 is the root).
pub open spec fn fst_walk(fst: Seq<u8>, es: nat, n: nat) -> Result<(Seq<(Seq<char>, u64, u64)>, Seq<(Seq<char>, nat)>), DiscError>
    decreases n,
{
    if n <= 1 {
        Ok((seq![], seq![]))
    } else {
        match fst_walk(fst, es, (n - 1) as nat) {
            Err(e) => Err(e),
            Ok((files, dirs)) => {
                let index = (n - 1) as int;
                let open = pop_dirs(dirs, index as nat);
                match fst_name(fst, es, name_offset(fst, index)) {
                    Err(e) => Err(e),
                    Ok(name) => if fst[12 * index] == 1 {
                        Ok((files, open.push((name, be_u32(fst, 12 * index + 8) as nat))))
                    } else {
                        Ok((files.push((dir_prefix(open) + name, be_u32(fst, 12 * index + 4) as u64, be_u32(fst, 12 * index + 8) as u64)), open))
                    },
                }
            },
        }
    }
}

/// The files listed by a filesystem table, with their full paths.
pub open spec fn fst_files(fst: Seq<u8>) -> Result<Seq<(Seq<char>, u64, u64)>, DiscError> {
    let count = be_u32(fst, 8) as nat;
    let es = count * 12;
    if es > usize::MAX {
        Err(DiscError::FstEntryCountOverflow)
    } else if count == 0 || es > fst.len() {
        Err(DiscError::FstMalformed)
    } else {
        match fst_walk(fst, es, count) {
            Err(e) => Err(e),
            Ok((files, _)) => Ok(files),
        }
    }
}

/// Reads the name at `off` of the string table after `es` bytes of entries.
fn read_fst_name(fst: &[u8], es: usize, off: usize) -> (r: Result<String, DiscError>)
    ensures
        match r {
            Ok(s) => fst_name(fst@, es as nat, off as nat) == Ok::<Seq<char>, DiscError>(s@),
            Err(e) => fst_name(fst@, es as nat, off as nat) == Err::<Seq<char>, DiscError>(e),
        },
{
    let start = match es.checked_add(off) {
        Some(s) => s,
        None => { return Err(DiscError::NameOffsetOverflow); },
    };
    if start >= fst.len() {
        return Err(DiscError::NameOutsideTable);
    }
    let mut z = start;
    while z < fst.len() && fst[z] != 0
        invariant
            start <= z <= fst@.len(),
            first_zero_from(fst@, start as int) == first_zero_from(fst@, z as int),
        decreases fst@.len() - z,
    {
        z = z + 1;
    }
    if z == fst.len() {
        return Err(DiscError::UnterminatedName);
    }
    let name = vstd::slice::slice_subrange(fst, start, z);
    Ok(from_utf8_lossy(name))
}

/// The files of the filesystem table `fst`, in table order, each with the
/// names of its enclosing directories joined by `/` before its own name.
///
/// Fails when the entry count is zero or its entries overrun the table, or
/// when a name lies outside the string table or has no terminating zero.
pub fn parse_fst(fst: &[u8]) -> (r: Result<Vec<DiscArchiveEntry>, DiscError>)
    requires
        fst@.len() >= 12,
    ensures
        match r {
            Ok(v) => fst_files(fst@) == Ok::<Seq<(Seq<char>, u64, u64)>, DiscError>(v@.map_values(|e: DiscArchiveEntry| file_record(e))),
            Err(e) => fst_files(fst@) == Err::<Seq<(Seq<char>, u64, u64)>, DiscError>(e),
        },
{
    let count = read_u32_be(fst, 8) as usize;
    let es = match count.checked_mul(12) {
        Some(v) => v,
        None => { return Err(DiscError::FstEntryCountOverflow); },
    };
    if count == 0 || es > fst.len() {
        return Err(DiscError::FstMalformed);
    }
    let mut files: Vec<DiscArchiveEntry> = Vec::new();
    let mut dirs: Vec<(String, usize)> = Vec::new();
    let mut index: usize = 1;
    proof {
        assert(files@.map_values(|e: DiscArchiveEntry| file_record(e)) =~= Seq::<(Seq<char>, u64, u64)>::empty());
        assert(dirs@.map_values(|d: (String, usize)| (d.0@, d.1 as nat)) =~= Seq::<(Seq<char>, nat)>::empty());
    }
    while index < count
        invariant
            count == be_u32(fst@, 8) as nat,
            es == count * 12,
            es <= fst@.len(),
            1 <= index <= count,
            fst_walk(fst@, es as nat, index as nat) == Ok::<(Seq<(Seq<char>, u64, u64)>, Seq<(Seq<char>, nat)>), DiscError>((
                files@.map_values(|e: DiscArchiveEntry| file_record(e)),
                dirs@.map_values(|d: (String, usize)| (d.0@, d.1 as nat)),
            )),
        decreases count - index,
    {
        let ghost files0 = files@.map_values(|e: DiscArchiveEntry| file_record(e));
        let ghost dirs0 = dirs@.map_values(|d: (String, usize)| (d.0@, d.1 as nat));
        while dirs.len() > 0 && index >= dirs[dirs.len() - 1].1
            invariant
                pop_dirs(dirs0, index as nat) == pop_dirs(dirs@.map_values(|d: (String, usize)| (d.0@, d.1 as nat)), index as nat),
            decreases dirs@.len(),
        {
            let ghost before = dirs@.map_values(|d: (String, usize)| (d.0@, d.1 as nat));
            dirs.pop();
            assert(dirs@.map_values(|d: (String, usize)| (d.0@, d.1 as nat)) =~= before.drop_last());
        }
        let ghost open = dirs@.map_values(|d: (String, usize)| (d.0@, d.1 as nat));
        assert(pop_dirs(open, index as nat) == open);
        assert(index * 12 + 12 <= es) by (nonlinear_arith)
            requires
                index < count,
                es == count * 12,
        ;
        let entry = index * 12;
        let off = (fst[entry + 1] as usize) * 0x1_0000 + (fst[entry + 2] as usize) * 0x100 + fst[entry + 3] as usize;
        let name = match read_fst_name(fst, es, off) {
            Ok(n) => n,
            Err(e) => {
                proof {
                    lemma_fst_walk_err(fst@, es as nat, (index + 1) as nat, count as nat);
                }
                return Err(e);
            },
        };
        if fst[entry] == 1 {
            let end = read_u32_be(fst, entry + 8) as usize;
            dirs.push((name, end));
            proof {
                assert(dirs@.map_values(|d: (String, usize)| (d.0@, d.1 as nat)) =~= open.push((name@, end as nat)));
            }
        } else {
            let mut path = String::new();
            let mut k: usize = 0;
            while k < dirs.len()
                invariant
                    k <= dirs@.len(),
                    open == dirs@.map_values(|d: (String, usize)| (d.0@, d.1 as nat)),
                    path@ == dir_prefix(open.take(k as int)),
                decreases dirs@.len() - k,
            {
                push_str(&mut path, dirs[k].0.as_str());
                push_char(&mut path, '/');
                proof {
                    reveal_strlit("/");
                    assert(open.take(k + 1).drop_last() =~= open.take(k as int));
                    assert(path@ =~= dir_prefix(open.take(k + 1)));
                }
                k = k + 1;
            }
            assert(open.take(k as int) =~= open);
            push_str(&mut path, name.as_str());
            let disc_offset = read_u32_be(fst, entry + 4) as u64;
            let size = read_u32_be(fst, entry + 8) as u64;
            files.push(DiscArchiveEntry { path, disc_offset, size });
            proof {
                assert(files@.map_values(|e: DiscArchiveEntry| file_record(e)) =~= files0.push((dir_prefix(open) + name@, disc_offset, size)));
            }
        }
        index = index + 1;
    }
    Ok(files)
}

/// A failed walk stays failed when more entries follow.
proof fn lemma_fst_walk_err(fst: Seq<u8>, es: nat, n: nat, m: nat)
    requires
        n <= m,
        fst_walk(fst, es, n) is Err,
    ensures
        fst_walk(fst, es, m) == fst_walk(fst, es, n),
    decreases m - n,
{
    if n < m {
        lemma_fst_walk_err(fst, es, n, (m - 1) as nat);
    }
}

// ---------------------------------------------------------------- archive layout

/// Little-endian bytes of the `n`-byte value `v`.
pub open spec fn le_bytes(v: nat, n: nat) -> Seq<u8>
    decreases n,
{
    if n == 0 { seq![] } else { seq![(v % 256) as u8] + le_bytes(v / 256, (n - 1) as nat) }
}

/// The 20-byte GCFS header: magic `GCFS`, version 1, the file count and the TOC offset.
pub open spec fn gcfs_header_bytes(file_count: u32, toc_offset: u64) -> Seq<u8> {
    seq![0x47u8, 0x43u8, 0x46u8, 0x53u8] + le_bytes(1, 4) + le_bytes(file_count as nat, 4) + le_bytes(toc_offset as nat, 8)
}

/// One TOC record: path length (16-bit), path bytes (UTF-8), archive offset,
/// compressed and decompressed sizes (64-bit), all little-endian.
pub open spec fn toc_entry_bytes(path: Seq<char>, offset: u64, compressed: u64, decompressed: u64) -> Seq<u8> {
    let p = encode_utf8(path);
    le_bytes(p.len(), 2) + p + le_bytes(offset as nat, 8) + le_bytes(compressed as nat, 8) + le_bytes(decompressed as nat, 8)
}

/// The TOC records of the first `n` entries.
pub open spec fn toc_bytes(es: Seq<TocRecord>, n: nat) -> Seq<u8>
    decreases n,
{
    if n == 0 {
        seq![]
    } else {
        let e = es[n - 1];
        toc_bytes(es, (n - 1) as nat) + toc_entry_bytes(e.path, e.data_offset, e.compressed_size, e.decompressed_size)
    }
}

/// Whether some path's UTF-8 encoding is longer than 65535 bytes.
pub open spec fn some_path_too_long(es: Seq<TocRecord>) -> bool {
    exists|i: int| 0 <= i < es.len() && encode_utf8(#[trigger] es[i].path).len() > 0xFFFF
}

/// Appends the `n` low bytes of `v`, little-endian.
fn push_le(out: &mut Vec<u8>, v: u64, n: usize)
    requires
        n <= 8,
    ensures
        final(out)@ == old(out)@ + le_bytes(v as nat, n as nat),
    decreases n,
{
    if n > 0 {
        out.push((v % 256) as u8);
        push_le(out, v / 256, n - 1);
        assert(final(out)@ =~= old(out)@ + le_bytes(v as nat, n as nat));
    } else {
        assert(final(out)@ =~= old(out)@ + le_bytes(v as nat, n as nat));
    }
}

/// The GCFS header for `file_count` files with the TOC at `toc_offset`.
pub fn gcfs_header(file_count: u32, toc_offset: u64) -> (r: Vec<u8>)
    ensures
        r@ == gcfs_header_bytes(file_count, toc_offset),
        r@.len() == 20,
{
    let mut out: Vec<u8> = Vec::new();
    out.push(0x47u8);
    out.push(0x43u8);
    out.push(0x46u8);
    out.push(0x53u8);
    push_le(&mut out, 1, 4);
    push_le(&mut out, file_count as u64, 4);
    push_le(&mut out, toc_offset, 8);
    assert(out@ =~= gcfs_header_bytes(file_count, toc_offset));
    proof {
        lemma_le_bytes_len(1, 4);
        lemma_le_bytes_len(file_count as nat, 4);
        lemma_le_bytes_len(toc_offset as nat, 8);
    }
    out
}

/// `le_bytes` has the requested length.
pub proof fn lemma_le_bytes_len(v: nat, n: nat)
    ensures
        le_bytes(v, n).len() == n,
    decreases n,
{
    if n > 0 {
        lemma_le_bytes_len(v / 256, (n - 1) as nat);
    }
}

/// The TOC of the archive: one record per entry, in order.
///
/// Fails when a path's UTF-8 encoding is longer than 65535 bytes.
pub fn encode_toc(entries: &[TocEntry]) -> (r: Result<Vec<u8>, DiscError>)
    ensures
        match r {
            Ok(v) => !some_path_too_long(entries@.map_values(|e: TocEntry| toc_record(e)))
                && v@ == toc_bytes(entries@.map_values(|e: TocEntry| toc_record(e)), entries@.len()),
            Err(e) => e == DiscError::PathTooLong && some_path_too_long(entries@.map_values(|e: TocEntry| toc_record(e))),
        },
{
    let ghost recs = entries@.map_values(|e: TocEntry| toc_record(e));
    let mut out: Vec<u8> = Vec::new();
    let n = entries.len();
    let mut i: usize = 0;
    while i < n
        invariant
            n == entries@.len(),
            recs == entries@.map_values(|e: TocEntry| toc_record(e)),
            i <= n,
            out@ == toc_bytes(recs, i as nat),
            forall|j: int| 0 <= j < i ==> encode_utf8(#[trigger] recs[j].path).len() <= 0xFFFF,
        decreases n - i,
    {
        let e = &entries[i];
        let path = e.path.as_str().as_bytes();
        assert(recs[i as int].path == e.path@);
        if path.len() > 0xFFFF {
            assert(encode_utf8(recs[i as int].path).len() > 0xFFFF);
            return Err(DiscError::PathTooLong);
        }
        let ghost before = out@;
        push_le(&mut out, path.len() as u64, 2);
        let mut k: usize = 0;
        let ghost mid = out@;
        while k < path.len()
            invariant
                k <= path@.len(),
                out@ == mid + path@.take(k as int),
            decreases path@.len() - k,
        {
            out.push(path[k]);
            k = k + 1;
            assert(out@ =~= mid + path@.take(k as int));
        }
        assert(path@.take(k as int) =~= path@);
        push_le(&mut out, e.data_offset, 8);
        push_le(&mut out, e.compressed_size, 8);
        push_le(&mut out, e.decompressed_size, 8);
        proof {
            assert(out@ =~= before + toc_entry_bytes(e.path@, e.data_offset, e.compressed_size, e.decompressed_size));
        }
        i = i + 1;
    }
    proof {
        assert forall|j: int| 0 <= j < recs.len() implies encode_utf8(#[trigger] recs[j].path).len() <= 0xFFFF by {}
    }
    Ok(out)
}



/// Reading `n` little-endian bytes that `le_bytes` wrote gives the value back, modulo `256^n`.
proof fn lemma_le_value_of_bytes(s: Seq<u8>, at: int, v: nat, n: nat)
    requires
        0 <= at,
        at + n <= s.len(),
        s.subrange(at, at + n) == le_bytes(v, n),
    ensures
        le_value(s, at, n) == v % pow256(n),
    decreases n,
{
    if n == 0 {
    } else {
        assert(s[at] == s.subrange(at, at + n)[0]);
        assert(s.subrange(at + 1, at + n) =~= s.subrange(at, at + n).drop_first());
        assert(le_bytes(v, n).drop_first() =~= le_bytes(v / 256, (n - 1) as nat));
        lemma_le_value_of_bytes(s, at + 1, v / 256, (n - 1) as nat);
        let p = pow256((n - 1) as nat);
        assert(p > 0) by {
            lemma_pow256_positive((n - 1) as nat);
        }
        vstd::arithmetic::div_mod::lemma_breakdown(v as int, 256, p as int);
    }
}

proof fn lemma_pow256_positive(n: nat)
    ensures
        pow256(n) > 0,
    decreases n,
{
    if n > 0 {
        lemma_pow256_positive((n - 1) as nat);
    }
}

/// A header written by [`gcfs_header`] reads back as version 1 with the same
/// file count and TOC offset.
pub proof fn lemma_gcfs_header_round_trip(file_count: u32, toc_offset: u64)
    ensures
        parse_header(gcfs_header_bytes(file_count, toc_offset)) == Ok::<(u32, u32, u64), GcfsError>((1u32, file_count, toc_offset)),
{
    let h = gcfs_header_bytes(file_count, toc_offset);
    lemma_le_bytes_len(1, 4);
    lemma_le_bytes_len(file_count as nat, 4);
    lemma_le_bytes_len(toc_offset as nat, 8);
    assert(h.len() == 20);
    assert(h[0] == 0x47u8 && h[1] == 0x43u8 && h[2] == 0x46u8 && h[3] == 0x53u8);
    assert(h.subrange(4, 8) =~= le_bytes(1, 4));
    assert(h.subrange(8, 12) =~= le_bytes(file_count as nat, 4));
    assert(h.subrange(12, 20) =~= le_bytes(toc_offset as nat, 8));
    lemma_le_value_of_bytes(h, 4, 1, 4);
    lemma_le_value_of_bytes(h, 8, file_count as nat, 4);
    lemma_le_value_of_bytes(h, 12, toc_offset as nat, 8);
    assert(pow256(4) == 0x1_0000_0000) by {
        reveal_with_fuel(pow256, 5);
    }
    assert(pow256(8) == 0x1_0000_0000_0000_0000) by {
        reveal_with_fuel(pow256, 9);
    }
    vstd::arithmetic::div_mod::lemma_small_mod(file_count as nat, pow256(4));
    vstd::arithmetic::div_mod::lemma_small_mod(toc_offset as nat, pow256(8));
    assert(le_value(h, 4, 4) == 1);
    assert(le_value(h, 8, 4) == file_count);
    assert(le_value(h, 12, 8) == toc_offset);
}

/// The TOC bytes of fewer entries are a prefix of those of more entries.
proof fn lemma_toc_bytes_prefix(recs: Seq<TocRecord>, m: nat, n: nat)
    requires
        m <= n <= recs.len(),
    ensures
        toc_bytes(recs, m).len() <= toc_bytes(recs, n).len(),
        toc_bytes(recs, n).take(toc_bytes(recs, m).len() as int) == toc_bytes(recs, m),
    decreases n - m,
{
    if m < n {
        lemma_toc_bytes_prefix(recs, m, (n - 1) as nat);
        let a = toc_bytes(recs, m);
        let b = toc_bytes(recs, (n - 1) as nat);
        let c = toc_bytes(recs, n);
        assert(c.take(b.len() as int) =~= b);
        assert(c.take(a.len() as int) =~= b.take(a.len() as int));
    } else {
        assert(toc_bytes(recs, n).take(toc_bytes(recs, n).len() as int) =~= toc_bytes(recs, n));
    }
}

/// The fields of one TOC record read back from where it was written.
proof fn lemma_parse_one(d: Seq<u8>, pos: int, e: TocRecord)
    requires
        0 <= pos,
        encode_utf8(e.path).len() <= 0xFFFF,
        pos + toc_entry_bytes(e.path, e.data_offset, e.compressed_size, e.decompressed_size).len() <= d.len(),
        d.subrange(pos, pos + toc_entry_bytes(e.path, e.data_offset, e.compressed_size, e.decompressed_size).len())
            == toc_entry_bytes(e.path, e.data_offset, e.compressed_size, e.decompressed_size),
    ensures
        ({
            let p = encode_utf8(e.path);
            let p1 = pos + 2;
            let p2 = p1 + p.len();
            &&& toc_entry_bytes(e.path, e.data_offset, e.compressed_size, e.decompressed_size).len() == p.len() + 26
            &&& le_value(d, pos, 2) == p.len()
            &&& lossy_text(d.subrange(p1, p2)) == e.path
            &&& le_value(d, p2, 8) == e.data_offset
            &&& le_value(d, p2 + 8, 8) == e.compressed_size
            &&& le_value(d, p2 + 16, 8) == e.decompressed_size
        }),
{
    broadcast use vstd::utf8::encode_utf8_valid_utf8, vstd::utf8::encode_utf8_decode_utf8;
    let p = encode_utf8(e.path);
    let body = toc_entry_bytes(e.path, e.data_offset, e.compressed_size, e.decompressed_size);
    lemma_le_bytes_len(p.len(), 2);
    lemma_le_bytes_len(e.data_offset as nat, 8);
    lemma_le_bytes_len(e.compressed_size as nat, 8);
    lemma_le_bytes_len(e.decompressed_size as nat, 8);
    let p1 = pos + 2;
    let p2 = p1 + p.len();
    let l = p.len() as int;
    assert(body.subrange(0, 2) =~= le_bytes(p.len(), 2));
    assert(body.subrange(2, 2 + l) =~= p);
    assert(body.subrange(2 + l, 10 + l) =~= le_bytes(e.data_offset as nat, 8));
    assert(body.subrange(10 + l, 18 + l) =~= le_bytes(e.compressed_size as nat, 8));
    assert(body.subrange(18 + l, 26 + l) =~= le_bytes(e.decompressed_size as nat, 8));
    assert forall|a: int, b: int| 0 <= a <= b <= body.len() implies #[trigger] d.subrange(pos + a, pos + b) == body.subrange(a, b) by {
        assert forall|j: int| 0 <= j < b - a implies d.subrange(pos + a, pos + b)[j] == body.subrange(a, b)[j] by {
            assert(d.subrange(pos, pos + body.len())[a + j] == d[pos + a + j]);
        }
        assert(d.subrange(pos + a, pos + b) =~= body.subrange(a, b));
    }
    assert(d.subrange(pos + 0, pos + 2) == body.subrange(0, 2));
    assert(d.subrange(pos + 2, pos + (2 + l)) == body.subrange(2, 2 + l));
    assert(d.subrange(pos + (2 + l), pos + (10 + l)) == body.subrange(2 + l, 10 + l));
    assert(d.subrange(pos + (10 + l), pos + (18 + l)) == body.subrange(10 + l, 18 + l));
    assert(d.subrange(pos + (18 + l), pos + (26 + l)) == body.subrange(18 + l, 26 + l));
    lemma_le_value_of_bytes(d, pos, p.len(), 2);
    lemma_le_value_of_bytes(d, p2, e.data_offset as nat, 8);
    lemma_le_value_of_bytes(d, p2 + 8, e.compressed_size as nat, 8);
    lemma_le_value_of_bytes(d, p2 + 16, e.decompressed_size as nat, 8);
    assert(pow256(2) == 65536) by {
        reveal_with_fuel(pow256, 3);
    }
    assert(pow256(8) == 0x1_0000_0000_0000_0000) by {
        reveal_with_fuel(pow256, 9);
    }
    vstd::arithmetic::div_mod::lemma_small_mod(p.len(), pow256(2));
    vstd::arithmetic::div_mod::lemma_small_mod(e.data_offset as nat, pow256(8));
    vstd::arithmetic::div_mod::lemma_small_mod(e.compressed_size as nat, pow256(8));
    vstd::arithmetic::div_mod::lemma_small_mod(e.decompressed_size as nat, pow256(8));
    assert(lossy_text(p) == e.path);
    assert(body.len() == p.len() + 26);
    assert(le_value(d, pos, 2) == p.len());
    assert(lossy_text(d.subrange(p1, p2)) == e.path);
    assert(le_value(d, p2, 8) == e.data_offset);
    assert(le_value(d, p2 + 8, 8) == e.compressed_size);
    assert(le_value(d, p2 + 16, 8) == e.decompressed_size);
}

/// Parsing the TOC bytes from the record of entry `k` on gives the remaining entries.
#[verifier::spinoff_prover]
#[verifier::rlimit(40)]
proof fn lemma_toc_parse_from(recs: Seq<TocRecord>, k: nat)
    requires
        k <= recs.len(),
        forall|i: int| 0 <= i < recs.len() ==> encode_utf8(#[trigger] recs[i].path).len() <= 0xFFFF,
    ensures
        parse_entries(toc_bytes(recs, recs.len()), (recs.len() - k) as nat, toc_bytes(recs, k).len() as int)
            == Ok::<Seq<TocRecord>, GcfsError>(recs.skip(k as int)),
    decreases recs.len() - k,
{
    let n = recs.len();
    let d = toc_bytes(recs, n);
    if k == n {
        assert(recs.skip(k as int) =~= Seq::<TocRecord>::empty());
    } else {
        lemma_toc_bytes_prefix(recs, (k + 1) as nat, n);
        lemma_toc_parse_from(recs, (k + 1) as nat);
        let e = recs[k as int];
        let pos = toc_bytes(recs, k).len() as int;
        let body = toc_entry_bytes(e.path, e.data_offset, e.compressed_size, e.decompressed_size);
        let prefix1 = toc_bytes(recs, (k + 1) as nat);
        assert(prefix1 == toc_bytes(recs, k) + body);
        assert(d.subrange(pos, pos + body.len()) =~= body) by {
            assert forall|j: int| 0 <= j < body.len() implies d.subrange(pos, pos + body.len())[j] == body[j] by {
                assert(d[pos + j] == d.take(prefix1.len() as int)[pos + j]);
                assert(prefix1[pos + j] == body[j]);
            }
        }
        lemma_parse_one(d, pos, e);
        let rec = TocRecord {
            path: lossy_text(d.subrange(pos + 2, pos + 2 + encode_utf8(e.path).len())),
            data_offset: le_value(d, pos + 2 + encode_utf8(e.path).len(), 8) as u64,
            compressed_size: le_value(d, pos + 2 + encode_utf8(e.path).len() + 8, 8) as u64,
            decompressed_size: le_value(d, pos + 2 + encode_utf8(e.path).len() + 16, 8) as u64,
        };
        assert(rec == e);
        assert(recs.skip(k as int) =~= seq![e] + recs.skip((k + 1) as int));
    }
}

/// A TOC written by [`encode_toc`] reads back (by the archive reader's
/// `parse_toc`) as the same entries: paths, offsets and sizes.
pub proof fn lemma_toc_round_trip(recs: Seq<TocRecord>)
    requires
        !some_path_too_long(recs),
    ensures
        parse_entries(toc_bytes(recs, recs.len()), recs.len(), 0) == Ok::<Seq<TocRecord>, GcfsError>(recs),
{
    assert forall|i: int| 0 <= i < recs.len() implies encode_utf8(#[trigger] recs[i].path).len() <= 0xFFFF by {}
    lemma_toc_parse_from(recs, 0);
    assert(recs.skip(0) =~= recs);
}


// ---------------------------------------------------------------- packing

/// What `zstd::encode_all` yields for `data` at compression level `level`:
/// the compressed frame, or `None` when it fails.
pub uninterp spec fn zstd_encoded(data: Seq<u8>, level: i32) -> Option<Seq<u8>>;

/// Calls `zstd::encode_all` on an in-memory buffer. Its result is named; it
/// depends on the data and the level alone, and a frame it produces
/// decompresses (by `zstd::decode_all`) to the input.
#[verifier::external_body]
fn zstd_encode_all(data: &[u8], level: i32) -> (r: Result<Vec<u8>, std::io::Error>)
    ensures
        match r {
            Ok(c) => zstd_encoded(data@, level) == Some(c@),
            Err(_) => zstd_encoded(data@, level) is None,
        },
        r matches Ok(c) ==> zstd_decoded(c@) == Some(data@),
{
    zstd::encode_all(data, level)
}

/// Packing files `k..n` of `fs` with the next one stored at offset `off`:
/// `Ok` of the offset after the last one, `Err(Some(i))` when compressing
/// file `i` fails first, `Err(None)` when an offset passes 64 bits first.
pub open spec fn pack_end(fs: Seq<Seq<u8>>, n: nat, k: nat, off: nat) -> Result<nat, Option<int>>
    decreases n - k,
{
    if k >= n {
        Ok(off)
    } else {
        match zstd_encoded(fs[k as int], 3) {
            None => Err(Some(k as int)),
            Some(c) => if off + c.len() > u64::MAX { Err(None) } else { pack_end(fs, n, k + 1, off + c.len()) },
        }
    }
}

/// The first file whose contents do not have the size the table records
/// (a missing file counts as empty), if any.
pub open spec fn first_short_file(recs: Seq<(Seq<char>, u64, u64)>, files: Seq<Seq<u8>>) -> Option<int> {
    if exists|i: int| 0 <= i < recs.len() && #[trigger] file_size_differs(recs, files, i) {
        Some(choose|i: int| 0 <= i < recs.len() && #[trigger] file_size_differs(recs, files, i)
            && forall|j: int| 0 <= j < i ==> !file_size_differs(recs, files, j))
    } else {
        None
    }
}

/// The contents of each file buffer.
pub open spec fn file_contents(files: Seq<Vec<u8>>) -> Seq<Seq<u8>> {
    files.map_values(|v: Vec<u8>| v@)
}

/// Whether file `i`'s contents differ in size from its table record.
pub open spec fn file_size_differs(recs: Seq<(Seq<char>, u64, u64)>, files: Seq<Seq<u8>>, i: int) -> bool {
    if i < files.len() { files[i].len() != recs[i].2 } else { true }
}

/// How many bytes of file `i` were supplied.
pub open spec fn supplied(files: Seq<Seq<u8>>, i: int) -> nat {
    if i < files.len() { files[i].len() } else { 0 }
}

/// `archive` is a GCFS archive whose TOC lists the files of `recs`, in
/// order, each with its path and size, stored at its recorded offset as
/// bytes that decompress to the file's contents.
pub open spec fn packs_files(archive: Seq<u8>, recs: Seq<(Seq<char>, u64, u64)>, files: Seq<Seq<u8>>) -> bool {
    match embedded_toc(archive) {
        Ok(toc) => {
            &&& toc.len() == recs.len()
            &&& forall|i: int| 0 <= i < toc.len() ==> {
                let e = #[trigger] toc[i];
                &&& e.path == recs[i].0
                &&& e.decompressed_size == recs[i].2
                &&& e.data_offset + e.compressed_size <= archive.len()
                &&& zstd_decoded(archive.subrange(e.data_offset as int, e.data_offset + e.compressed_size)) == Some(files[i])
            }
        },
        Err(_) => false,
    }
}

/// Whether some path of `recs` is longer than 65535 bytes in UTF-8.
pub open spec fn some_fst_path_too_long(recs: Seq<(Seq<char>, u64, u64)>) -> bool {
    exists|i: int| 0 <= i < recs.len() && encode_utf8(#[trigger] recs[i].0).len() > 0xFFFF
}

/// Packs the files of the filesystem table `fst` into a GCFS archive: the
/// header, each file's contents compressed with zstd (level 3) in table
/// order, then the TOC. `files[i]` holds the contents of the table's `i`-th
/// file.
///
/// Fails as [`parse_fst`] does on a bad table; then with `FileEndedEarly`
/// for the first file whose contents have another size than the table
/// records; then when there are more than `u32::MAX` files; then at the first
/// file whose compression fails or whose stored bytes would end past 64 bits;
/// then when a path is longer than 65535 bytes.
pub fn build_gcfs_archive(fst: &[u8], files: &Vec<Vec<u8>>) -> (r: Result<Vec<u8>, DiscError>)
    requires
        fst@.len() >= 12,
    ensures
        match fst_files(fst@) {
            Err(e) => r == Err::<Vec<u8>, DiscError>(e),
            Ok(recs) => {
                let fs = file_contents(files@);
                match first_short_file(recs, fs) {
                    Some(i) => r matches Err(DiscError::FileEndedEarly { path, expected, read })
                        && path@ == recs[i].0 && expected == recs[i].2 && read == supplied(fs, i),
                    None => if recs.len() > u32::MAX {
                        r == Err::<Vec<u8>, DiscError>(DiscError::FstEntryCountOverflow)
                    } else {
                        match pack_end(fs, recs.len(), 0, 20) {
                            Err(Some(i)) => r matches Err(DiscError::CompressionFailed { path }) && path@ == recs[i].0,
                            Err(None) => r == Err::<Vec<u8>, DiscError>(DiscError::ArchiveTooLarge),
                            Ok(_) => if some_fst_path_too_long(recs) {
                                r == Err::<Vec<u8>, DiscError>(DiscError::PathTooLong)
                            } else {
                                r matches Ok(a) && packs_files(a@, recs, fs)
                            },
                        }
                    },
                }
            },
        },
{
    let entries = match parse_fst(fst) {
        Ok(v) => v,
        Err(e) => { return Err(e); },
    };
    let ghost recs = entries@.map_values(|e: DiscArchiveEntry| file_record(e));
    let ghost fs = file_contents(files@);
    let n = entries.len();
    // Every file must have its recorded size before anything is packed.
    let mut i: usize = 0;
    while i < n
        invariant
            n == entries@.len() == recs.len(),
            recs == entries@.map_values(|e: DiscArchiveEntry| file_record(e)),
            fs == file_contents(files@),
            fst_files(fst@) == Ok::<Seq<(Seq<char>, u64, u64)>, DiscError>(recs),
            i <= n,
            forall|j: int| 0 <= j < i ==> !#[trigger] file_size_differs(recs, fs, j),
        decreases n - i,
    {
        let have: u64 = if i < files.len() { files[i].len() as u64 } else { 0 };
        if i >= files.len() || files[i].len() as u64 != entries[i].size {
            proof {
                assert(file_size_differs(recs, fs, i as int));
                let k = choose|k: int| 0 <= k < recs.len() && #[trigger] file_size_differs(recs, fs, k)
                    && forall|j: int| 0 <= j < k ==> !file_size_differs(recs, fs, j);
                if k < i {
                    assert(!file_size_differs(recs, fs, k));
                } else if k > i {
                    assert(!file_size_differs(recs, fs, i as int));
                }
                assert(k == i);
            }
            return Err(DiscError::FileEndedEarly { path: entries[i].path.clone(), expected: entries[i].size, read: have });
        }
        i = i + 1;
    }
    assert(first_short_file(recs, fs) is None);
    if n > files.len() {
        assert(file_size_differs(recs, fs, files@.len() as int));
    }
    if n > 0xFFFF_FFFF {
        return Err(DiscError::FstEntryCountOverflow);
    }
    let mut body: Vec<u8> = Vec::new();
    let mut toc: Vec<TocEntry> = Vec::new();
    let mut offset: u64 = 20;
    let mut k: usize = 0;
    while k < n
        invariant
            n == entries@.len() == recs.len(),
            n <= u32::MAX,
            recs == entries@.map_values(|e: DiscArchiveEntry| file_record(e)),
            fs == file_contents(files@),
            fst_files(fst@) == Ok::<Seq<(Seq<char>, u64, u64)>, DiscError>(recs),
            n <= files@.len(),
            k <= n,
            toc@.len() == k,
            offset == 20 + body@.len(),
            pack_end(fs, n as nat, 0, 20) == pack_end(fs, n as nat, k as nat, offset as nat),
            forall|j: int| 0 <= j < n ==> !#[trigger] file_size_differs(recs, fs, j),
            first_short_file(recs, fs) is None,
            forall|j: int| 0 <= j < k ==> {
                let e = #[trigger] toc@[j];
                &&& e.path@ == recs[j].0
                &&& e.decompressed_size == recs[j].2
                &&& 20 <= e.data_offset
                &&& e.data_offset + e.compressed_size <= 20 + body@.len()
                &&& zstd_decoded(body@.subrange(e.data_offset - 20, e.data_offset - 20 + e.compressed_size)) == Some(fs[j])
            },
        decreases n - k,
    {
        assert(!file_size_differs(recs, fs, k as int));
        assert(fs[k as int] == files@[k as int]@);
        let compressed = match zstd_encode_all(files[k].as_slice(), 3) {
            Ok(c) => c,
            Err(_) => {
                assert(recs[k as int].0 == entries@[k as int].path@);
                return Err(DiscError::CompressionFailed { path: entries[k].path.clone() });
            },
        };
        let clen = compressed.len() as u64;
        let end = match offset.checked_add(clen) { Some(e) => e, None => { return Err(DiscError::ArchiveTooLarge); } };
        let ghost before = body@;
        let ghost c = compressed@;
        let mut compressed = compressed;
        body.append(&mut compressed);
        assert(body@.subrange(before.len() as int, (before.len() + c.len()) as int) =~= c);
        proof {
            assert forall|j: int| 0 <= j < k implies {
                let e = #[trigger] toc@[j];
                zstd_decoded(body@.subrange(e.data_offset - 20, e.data_offset - 20 + e.compressed_size)) == Some(fs[j])
            } by {
                let e = toc@[j];
                assert(body@.subrange(e.data_offset - 20, e.data_offset - 20 + e.compressed_size)
                    =~= before.subrange(e.data_offset - 20, e.data_offset - 20 + e.compressed_size));
            }
        }
        toc.push(TocEntry {
            path: entries[k].path.clone(),
            data_offset: offset,
            compressed_size: clen,
            decompressed_size: entries[k].size,
        });
        offset = end;
        k = k + 1;
    }
    let toc_bytes_v = match encode_toc(toc.as_slice()) {
        Ok(t) => t,
        Err(e) => {
            proof {
                let tr = toc@.map_values(|e: TocEntry| toc_record(e));
                let w = choose|i: int| 0 <= i < tr.len() && encode_utf8(#[trigger] tr[i].path).len() > 0xFFFF;
                assert(tr[w].path == recs[w].0);
                assert(some_fst_path_too_long(recs));
            }
            return Err(e);
        },
    };
    proof {
        let tr = toc@.map_values(|e: TocEntry| toc_record(e));
        if some_fst_path_too_long(recs) {
            let w = choose|i: int| 0 <= i < recs.len() && encode_utf8(#[trigger] recs[i].0).len() > 0xFFFF;
            assert(tr[w].path == recs[w].0);
            assert(some_path_too_long(tr));
        }
    }
    let header = gcfs_header(n as u32, offset);
    let ghost hb = header@;
    let ghost bb = body@;
    let ghost tb = toc_bytes_v@;
    let mut out = header;
    let mut body = body;
    let mut tv = toc_bytes_v;
    out.append(&mut body);
    out.append(&mut tv);
    proof {
        lemma_archive_lists(hb, bb, tb, n as u32, offset, toc@.map_values(|e: TocEntry| toc_record(e)));
        let a = out@;
        let tr = toc@.map_values(|e: TocEntry| toc_record(e));
        assert(a =~= hb + bb + tb);
        assert forall|i: int| 0 <= i < tr.len() implies {
            let e = #[trigger] tr[i];
            &&& e.path == recs[i].0
            &&& e.decompressed_size == recs[i].2
            &&& e.data_offset + e.compressed_size <= a.len()
            &&& zstd_decoded(a.subrange(e.data_offset as int, e.data_offset + e.compressed_size)) == Some(fs[i])
        } by {
            let e = tr[i];
            assert(e == toc_record(toc@[i]));
            assert(a.subrange(e.data_offset as int, e.data_offset + e.compressed_size)
                =~= bb.subrange(e.data_offset - 20, e.data_offset - 20 + e.compressed_size));
        }
    }
    Ok(out)
}

/// A packed file reads back: in a filesystem over an archive that packs
/// `files`, a handle open on the path of TOC entry `i`, with no loose file
/// or cached copy in the way, reads as the contents of file `i`.
pub proof fn lemma_packed_file_reads_back(v: VfsView, recs: Seq<(Seq<char>, u64, u64)>, files: Seq<Seq<u8>>, h: u32)
    requires
        v.archive matches Some(a) && packs_files(a, recs, files) && v.archive_len == a.len()
            && embedded_toc(a) == Ok::<Seq<TocRecord>, GcfsError>(v.toc),
        open_index(v.open, h) matches Some(oi) && v.open[oi].loose is None
            && named_index(v.cache, v.open[oi].path) is None
            && toc_index(v.toc, v.open[oi].path) is Some,
    ensures
        ({
            let p = v.open[open_index(v.open, h)->0].path;
            read_plan(v, h) == ReadPlan::Copy(files[toc_index(v.toc, p)->0], Some(p))
        }),
{
    let p = v.open[open_index(v.open, h)->0].path;
    crate::dvd::lemma_toc_index(v.toc, p);
    let i = toc_index(v.toc, p)->0;
    assert(0 <= i < v.toc.len());
    let e = v.toc[i];
    assert(e.data_offset + e.compressed_size <= v.archive_len);
}

/// An archive laid out as header, body and TOC lists the TOC's records.
proof fn lemma_archive_lists(hb: Seq<u8>, bb: Seq<u8>, tb: Seq<u8>, count: u32, toc_offset: u64, recs: Seq<TocRecord>)
    requires
        hb == gcfs_header_bytes(count, toc_offset),
        toc_offset == 20 + bb.len(),
        count == recs.len(),
        !some_path_too_long(recs),
        tb == toc_bytes(recs, recs.len()),
    ensures
        embedded_toc(hb + bb + tb) == Ok::<Seq<TocRecord>, GcfsError>(recs),
{
    lemma_gcfs_header_round_trip(count, toc_offset);
    lemma_toc_round_trip(recs);
    lemma_le_bytes_len(1, 4);
    lemma_le_bytes_len(count as nat, 4);
    lemma_le_bytes_len(toc_offset as nat, 8);
    let a = hb + bb + tb;
    assert(hb.len() == 20);
    assert(a.take(20) =~= hb);
    assert(a.skip(toc_offset as int) =~= tb);
}

// ---------------------------------------------------------------- checksums

/// The SHA-256 digest of `bytes`.
pub uninterp spec fn sha256(bytes: Seq<u8>) -> Seq<u8>;

/// Calls `sha2::Sha256::digest`. Its result is named; the crate fixes the
/// output at 32 bytes.
#[verifier::external_body]
fn sha256_digest(data: &[u8]) -> (r: Vec<u8>)
    ensures
        r@ == sha256(data@),
        r@.len() == 32,
{
    Sha256::digest(data).to_vec()
}

/// Lower-case hexadecimal of `bytes`, two digits per byte (as `{:x}` prints a digest).
pub open spec fn hex_lower(bytes: Seq<u8>) -> Seq<char>
    decreases bytes.len(),
{
    if bytes.len() == 0 { seq![] } else { hex_lower(bytes.drop_last()) + hex_pad(bytes.last() as nat, 2, false) }
}

/// Lower-case hexadecimal of `bytes`, two digits per byte.
pub fn to_hex_lower(bytes: &[u8]) -> (r: String)
    ensures
        r@ == hex_lower(bytes@),
{
    let mut r = String::new();
    let n = bytes.len();
    let mut i: usize = 0;
    while i < n
        invariant
            n == bytes@.len(),
            i <= n,
            r@ == hex_lower(bytes@.take(i as int)),
        decreases n - i,
    {
        push_hex_pad(&mut r, bytes[i] as u64, 2, false);
        assert(bytes@.take(i + 1).drop_last() =~= bytes@.take(i as int));
        i = i + 1;
    }
    assert(bytes@.take(n as int) =~= bytes@);
    r
}

/// The SHA-256 of `data` in lower-case hexadecimal.
pub fn sha256_hex(data: &[u8]) -> (r: String)
    ensures
        r@ == hex_lower(sha256(data@)),
{
    let digest = sha256_digest(data);
    to_hex_lower(digest.as_slice())
}


/// `sha2::Sha256`: an incremental SHA-256 hasher.
#[verifier::external_type_specification]
#[verifier::external_body]
pub struct ExSha256(sha2::Sha256);

/// The bytes a `sha2::Sha256` hasher has absorbed so far, in order.
pub uninterp spec fn sha256_absorbed(h: sha2::Sha256) -> Seq<u8>;

/// Calls `Digest::new` for `sha2::Sha256`: a hasher that has absorbed nothing.
#[verifier::external_body]
fn sha256_new() -> (h: sha2::Sha256)
    ensures
        sha256_absorbed(h) == Seq::<u8>::empty(),
{
    Sha256::new()
}

/// Calls `Digest::update` for `sha2::Sha256`: the hasher absorbs `data`
/// after what it already holds.
#[verifier::external_body]
fn sha256_update(h: &mut sha2::Sha256, data: &[u8])
    ensures
        sha256_absorbed(*final(h)) == sha256_absorbed(*old(h)) + data@,
{
    h.update(data);
}

/// Calls `Digest::finalize` for `sha2::Sha256`: the digest of everything
/// absorbed, the same as a one-shot digest of those bytes.
#[verifier::external_body]
fn sha256_finalize(h: sha2::Sha256) -> (d: Vec<u8>)
    ensures
        d@ == sha256(sha256_absorbed(h)),
        d@.len() == 32,
{
    h.finalize().to_vec()
}

/// SHA-256 over data fed in pieces, such as a disc image read in chunks.
pub struct StreamHasher {
    inner: sha2::Sha256,
}

impl StreamHasher {
    /// The bytes fed so far, in order.
    pub closed spec fn absorbed(&self) -> Seq<u8> {
        sha256_absorbed(self.inner)
    }

    /// A hasher that has been fed nothing.
    pub fn new() -> (h: Self)
        ensures
            h.absorbed() == Seq::<u8>::empty(),
    {
        StreamHasher { inner: sha256_new() }
    }

    /// Feeds `data` after what was fed before.
    pub fn update(&mut self, data: &[u8])
        ensures
            final(self).absorbed() == old(self).absorbed() + data@,
    {
        sha256_update(&mut self.inner, data);
    }

    /// The SHA-256 of everything fed, in lower-case hexadecimal.
    pub fn finalize_hex(self) -> (r: String)
        ensures
            r@ == hex_lower(sha256(self.absorbed())),
    {
        let digest = sha256_finalize(self.inner);
        to_hex_lower(digest.as_slice())
    }
}

} // verus!
