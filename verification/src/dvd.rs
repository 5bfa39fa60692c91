//! Virtual DVD filesystem backed by a GCFS archive.
//!
//! A GCFS archive holds zstd-compressed disc files. Its 20-byte header
//! (little-endian) is the magic `GCFS`, a version, the file count and the
//! offset of the table of contents; each TOC entry is a 16-bit path length,
//! the path, and the data offset, compressed size and decompressed size as
//! 64-bit values. Loose files registered under their disc path take
//! precedence over archived ones.
use vstd::prelude::*;
use vstd::string::*;
use crate::memory::{MemoryManager, RAM_SIZE, in_ram, physical, pow256};
use crate::text::{from_utf8_lossy, lowercase, push_char, push_str, push_string, str_chars, str_eq, to_lowercase, lossy_text};

verus! {

/// `std::io::Error`, as returned by the zstd decoder.
#[verifier::external_type_specification]
#[verifier::external_body]
pub struct ExIoError(std::io::Error);

/// What `zstd::decode_all` yields for a compressed buffer: the decompressed
/// bytes, or `None` when the data is not a valid zstd stream.
pub uninterp spec fn zstd_decoded(data: Seq<u8>) -> Option<Seq<u8>>;

/// Calls `zstd::decode_all` on an in-memory buffer. The result is named; it
/// depends on the input bytes alone.
#[verifier::external_body]
fn zstd_decode_all(data: &[u8]) -> (r: Result<Vec<u8>, std::io::Error>)
    ensures
        match r {
            Ok(v) => zstd_decoded(data@) == Some(v@),
            Err(_) => zstd_decoded(data@) is None,
        },
{
    zstd::decode_all(data)
}

/// Why a GCFS archive could not be read.
#[derive(Clone, Copy, Debug, PartialEq, Eq, Structural)]
pub enum GcfsError {
    /// Fewer than 20 bytes.
    TooSmall,
    /// The first four bytes are not `GCFS`.
    InvalidMagic,
    /// The TOC offset lies past the end of the archive.
    TocOutOfRange,
    /// The TOC ends inside a path length.
    TruncatedPathLength,
    /// The TOC ends inside a path.
    TruncatedPath,
    /// The TOC ends inside the offsets of an entry.
    TruncatedOffsets,
}

/// Why a DVD read failed.
#[derive(Debug, PartialEq, Eq)]
pub enum DvdError {
    /// The handle is not open.
    InvalidHandle(u32),
    /// The file's TOC entry is missing.
    MissingEntry,
    /// The compressed data lies outside the archive.
    OutOfBounds,
    /// The compressed data is not a valid zstd stream.
    Decompression,
    /// The archive lives outside memory: its bytes `offset..offset + length`
    /// must be supplied with [`VirtualFilesystem::cache_compressed`] first.
    NeedArchiveRange { path: String, offset: u64, length: u64 },
    /// The destination range lies outside main memory.
    MemoryWrite(u32),
}

/// Little-endian value of `bytes[at..at + n]`.
pub open spec fn le_value(bytes: Seq<u8>, at: int, n: nat) -> nat
    decreases n,
{
    if n == 0 { 0 } else { bytes[at] as nat + 256 * le_value(bytes, at + 1, (n - 1) as nat) }
}

/// One table-of-contents entry.
#[derive(Debug)]
pub struct TocEntry {
    pub path: String,
    pub data_offset: u64,
    pub compressed_size: u64,
    pub decompressed_size: u64,
}

/// A TOC entry as plain values.
pub struct TocRecord {
    pub path: Seq<char>,
    pub data_offset: u64,
    pub compressed_size: u64,
    pub decompressed_size: u64,
}

/// The plain values of a TOC entry.
pub open spec fn toc_record(e: TocEntry) -> TocRecord {
    TocRecord { path: e.path@, data_offset: e.data_offset, compressed_size: e.compressed_size, decompressed_size: e.decompressed_size }
}

/// The entries of a TOC parsed from `data` starting at `pos`, `count` of them.
pub open spec fn parse_entries(data: Seq<u8>, count: nat, pos: int) -> Result<Seq<TocRecord>, GcfsError>
    decreases count,
{
    if count == 0 {
        Ok(seq![])
    } else if pos + 2 > data.len() {
        Err(GcfsError::TruncatedPathLength)
    } else {
        let plen = le_value(data, pos, 2);
        let p1 = pos + 2;
        if p1 + plen > data.len() {
            Err(GcfsError::TruncatedPath)
        } else {
            let p2 = p1 + plen;
            if p2 + 24 > data.len() {
                Err(GcfsError::TruncatedOffsets)
            } else {
                let rec = TocRecord {
                    path: lossy_text(data.subrange(p1, p2)),
                    data_offset: le_value(data, p2, 8) as u64,
                    compressed_size: le_value(data, p2 + 8, 8) as u64,
                    decompressed_size: le_value(data, p2 + 16, 8) as u64,
                };
                match parse_entries(data, (count - 1) as nat, p2 + 24) {
                    Ok(rest) => Ok(seq![rec] + rest),
                    Err(e) => Err(e),
                }
            }
        }
    }
}

/// The header fields `(version, file_count, toc_offset)` of a GCFS archive.
pub open spec fn parse_header(header: Seq<u8>) -> Result<(u32, u32, u64), GcfsError> {
    if header.len() < 20 {
        Err(GcfsError::TooSmall)
    } else if !(header[0] == 0x47u8 && header[1] == 0x43u8 && header[2] == 0x46u8 && header[3] == 0x53u8) {
        Err(GcfsError::InvalidMagic)
    } else {
        Ok((le_value(header, 4, 4) as u32, le_value(header, 8, 4) as u32, le_value(header, 12, 8) as u64))
    }
}

/// Little-endian 64-bit value at `offset`.
pub fn read_u64_le(data: &[u8], offset: usize) -> (v: u64)
    requires
        offset + 8 <= data@.len(),
    ensures
        v as nat == le_value(data@, offset as int, 8),
{
    read_le(data, offset, 8)
}

fn read_le(data: &[u8], offset: usize, n: usize) -> (v: u64)
    requires
        offset + n <= data@.len(),
        n <= 8,
    ensures
        v as nat == le_value(data@, offset as int, n as nat),
    decreases n,
{
    let len = data.len();
    if n == 0 {
        0
    } else {
        let rest = read_le(data, offset + 1, n - 1);
        proof {
            lemma_le_value_bound(data@, offset + 1, (n - 1) as nat);
            lemma_pow256_le((n - 1) as nat, 7);
            assert(pow256(7) == 0x0100_0000_0000_0000) by {
                reveal_with_fuel(pow256, 8);
            }
        }
        assert(data@[offset as int] + 256 * rest <= u64::MAX) by (nonlinear_arith)
            requires
                rest < 0x0100_0000_0000_0000,
                data@[offset as int] < 256,
        ;
        data[offset] as u64 + 256 * rest
    }
}


proof fn lemma_pow256_le(a: nat, b: nat)
    requires
        a <= b,
    ensures
        pow256(a) <= pow256(b),
    decreases b,
{
    if a < b {
        lemma_pow256_le(a, (b - 1) as nat);
    }
}

proof fn lemma_le_value_bound(bytes: Seq<u8>, at: int, n: nat)
    requires
        0 <= at,
        at + n <= bytes.len(),
    ensures
        le_value(bytes, at, n) < pow256(n),
    decreases n,
{
    if n > 0 {
        lemma_le_value_bound(bytes, at + 1, (n - 1) as nat);
        let rest = le_value(bytes, at + 1, (n - 1) as nat);
        assert(bytes[at] + 256 * rest < pow256(n)) by (nonlinear_arith)
            requires
                rest < pow256((n - 1) as nat),
                pow256(n) == 256 * pow256((n - 1) as nat),
                bytes[at] < 256,
        ;
    }
}

/// The header fields `(version, file_count, toc_offset)` of a GCFS archive.
pub fn parse_gcfs_header(header: &[u8]) -> (r: Result<(u32, u32, u64), GcfsError>)
    ensures
        r == parse_header(header@),
{
    if header.len() < 20 {
        return Err(GcfsError::TooSmall);
    }
    if !(header[0] == 0x47u8 && header[1] == 0x43u8 && header[2] == 0x46u8 && header[3] == 0x53u8) {
        return Err(GcfsError::InvalidMagic);
    }
    let version = read_le(header, 4, 4);
    let count = read_le(header, 8, 4);
    proof {
        lemma_le_value_bound(header@, 4, 4);
        lemma_le_value_bound(header@, 8, 4);
        assert(pow256(4) == 0x1_0000_0000) by {
            reveal_with_fuel(pow256, 5);
        }
    }
    let toc_offset = read_le(header, 12, 8);
    Ok((version as u32, count as u32, toc_offset))
}

/// The entries of a TOC.
pub fn parse_toc(toc_data: &[u8], file_count: u32) -> (r: Result<Vec<TocEntry>, GcfsError>)
    ensures
        match r {
            Ok(v) => parse_entries(toc_data@, file_count as nat, 0) == Ok::<Seq<TocRecord>, GcfsError>(v@.map_values(|e: TocEntry| toc_record(e))),
            Err(e) => parse_entries(toc_data@, file_count as nat, 0) == Err::<Seq<TocRecord>, GcfsError>(e),
        },
{
    let mut entries: Vec<TocEntry> = Vec::new();
    let mut pos: usize = 0;
    let mut i: u32 = 0;
    let n = toc_data.len();
    while i < file_count
        invariant
            n == toc_data@.len(),
            i <= file_count,
            pos <= n,
            parse_entries(toc_data@, file_count as nat, 0) == match parse_entries(toc_data@, (file_count - i) as nat, pos as int) {
                Ok(rest) => Ok(entries@.map_values(|e: TocEntry| toc_record(e)) + rest),
                Err(e) => Err(e),
            },
        decreases file_count - i,
    {
        let ghost before = entries@.map_values(|e: TocEntry| toc_record(e));
        if n < 2 || pos > n - 2 {
            return Err(GcfsError::TruncatedPathLength);
        }
        let plen = read_le(toc_data, pos, 2);
        proof {
            lemma_le_value_bound(toc_data@, pos as int, 2);
            assert(pow256(2) == 65536) by {
                reveal_with_fuel(pow256, 3);
            }
        }
        let plen = plen as usize;
        let p1 = pos + 2;
        if plen > n - p1 {
            return Err(GcfsError::TruncatedPath);
        }
        let path_bytes = slice_range(toc_data, p1, p1 + plen);
        let path = from_utf8_lossy(path_bytes.as_slice());
        let p2 = p1 + plen;
        if n < 24 || p2 > n - 24 {
            return Err(GcfsError::TruncatedOffsets);
        }
        let data_offset = read_u64_le(toc_data, p2);
        let compressed_size = read_u64_le(toc_data, p2 + 8);
        let decompressed_size = read_u64_le(toc_data, p2 + 16);
        let entry = TocEntry { path, data_offset, compressed_size, decompressed_size };
        let ghost rec = toc_record(entry);
        entries.push(entry);
        pos = p2 + 24;
        i = i + 1;
        proof {
            assert(entries@.map_values(|e: TocEntry| toc_record(e)) =~= before.push(rec));
            match parse_entries(toc_data@, (file_count - i) as nat, pos as int) {
                Ok(rest) => {
                    assert(before.push(rec) + rest =~= before + (seq![rec] + rest));
                },
                Err(e) => {},
            }
        }
    }
    assert(entries@.map_values(|e: TocEntry| toc_record(e)) + Seq::<TocRecord>::empty() =~= entries@.map_values(|e: TocEntry| toc_record(e)));
    Ok(entries)
}

/// The bytes `data[start..end]`, copied.
pub fn slice_range(data: &[u8], start: usize, end: usize) -> (r: Vec<u8>)
    requires
        start <= end <= data@.len(),
    ensures
        r@ == data@.subrange(start as int, end as int),
{
    let mut r: Vec<u8> = Vec::new();
    let mut i = start;
    while i < end
        invariant
            start <= i <= end <= data@.len(),
            r@ == data@.subrange(start as int, i as int),
        decreases end - i,
    {
        r.push(data[i]);
        i = i + 1;
        assert(r@ =~= data@.subrange(start as int, i as int));
    }
    r
}

// ---------------------------------------------------------------- loose-file paths

/// `s` split at every `/` (an empty string gives one empty part).
pub open spec fn split_slash(s: Seq<char>) -> Seq<Seq<char>>
    decreases s.len(),
{
    if s.len() == 0 {
        seq![seq![]]
    } else {
        let r = split_slash(s.drop_last());
        if s.last() == '/' { r.push(seq![]) } else { r.update(r.len() - 1, r.last().push(s.last())) }
    }
}

/// `acc` with the path component `p` appended (`PathBuf::push` of a relative part).
pub open spec fn push_component(acc: Seq<char>, p: Seq<char>) -> Seq<char> {
    if acc.len() == 0 || acc.last() == '/' { acc + p } else { acc.push('/') + p }
}

/// Whether `p` is `..`.
pub open spec fn is_parent(p: Seq<char>) -> bool {
    p.len() == 2 && p[0] == '.' && p[1] == '.'
}

/// Whether `p` is `.`.
pub open spec fn is_current(p: Seq<char>) -> bool {
    p.len() == 1 && p[0] == '.'
}

/// `acc` extended by the normal components among `parts`; `None` at a `..`.
pub open spec fn join_components(acc: Seq<char>, parts: Seq<Seq<char>>) -> Option<Seq<char>>
    decreases parts.len(),
{
    if parts.len() == 0 {
        Some(acc)
    } else {
        let p = parts[0];
        if is_parent(p) {
            None
        } else if p.len() == 0 || is_current(p) {
            join_components(acc, parts.drop_first())
        } else {
            join_components(push_component(acc, p), parts.drop_first())
        }
    }
}

/// `root` joined with `relative`, or `None` when `relative` is absolute or
/// climbs with `..`: a path under `root` can never leave it.
pub open spec fn safe_join_spec(root: Seq<char>, relative: Seq<char>) -> Option<Seq<char>> {
    if relative.len() > 0 && relative[0] == '/' {
        None
    } else {
        join_components(root, split_slash(relative))
    }
}

fn split_parts(s: &Vec<char>) -> (r: Vec<Vec<char>>)
    ensures
        r@.len() == split_slash(s@).len(),
        forall|i: int| 0 <= i < r@.len() ==> #[trigger] r@[i]@ == split_slash(s@)[i],
{
    let mut parts: Vec<Vec<char>> = Vec::new();
    let mut cur: Vec<char> = Vec::new();
    let mut i: usize = 0;
    while i < s.len()
        invariant
            i <= s@.len(),
            parts@.len() + 1 == split_slash(s@.take(i as int)).len(),
            forall|j: int| 0 <= j < parts@.len() ==> #[trigger] parts@[j]@ == split_slash(s@.take(i as int))[j],
            cur@ == split_slash(s@.take(i as int)).last(),
        decreases s@.len() - i,
    {
        assert(s@.take(i + 1).drop_last() =~= s@.take(i as int));
        let c = s[i];
        if c == '/' {
            parts.push(cur);
            cur = Vec::new();
        } else {
            cur.push(c);
        }
        i = i + 1;
    }
    assert(s@.take(s@.len() as int) =~= s@);
    parts.push(cur);
    parts
}

/// `root` joined with `relative` when `relative` stays inside `root`:
/// `None` for an absolute path or one that contains `..`; `.` and empty
/// components are skipped.
pub fn safe_join(root: &str, relative: &str) -> (r: Option<String>)
    ensures
        match r {
            Some(p) => safe_join_spec(root@, relative@) == Some(p@),
            None => safe_join_spec(root@, relative@) is None,
        },
{
    let rel = str_chars(relative);
    if rel.len() > 0 && rel[0] == '/' {
        return None;
    }
    let parts = split_parts(&rel);
    let mut out = String::new();
    push_str(&mut out, root);
    let mut last: Option<char> = last_char(&out);
    assert(out@ =~= root@);
    assert(split_slash(rel@).skip(0) =~= split_slash(rel@));
    let mut i: usize = 0;
    while i < parts.len()
        invariant
            i <= parts@.len(),
            parts@.len() == split_slash(rel@).len(),
            forall|j: int| 0 <= j < parts@.len() ==> #[trigger] parts@[j]@ == split_slash(rel@)[j],
            rel@ == relative@,
            join_components(root@, split_slash(rel@)) == join_components(out@, split_slash(rel@).skip(i as int)),
            last == (if out@.len() == 0 { None } else { Some(out@.last()) }),
        decreases parts@.len() - i,
    {
        let ghost rest = split_slash(rel@).skip(i as int);
        assert(rest.drop_first() =~= split_slash(rel@).skip(i + 1));
        let p = &parts[i];
        assert(p@ == rest[0]);
        if p.len() == 2 && p[0] == '.' && p[1] == '.' {
            return None;
        }
        if p.len() == 0 || (p.len() == 1 && p[0] == '.') {
        } else {
            let ghost acc = out@;
            match last {
                Some(c) => {
                    if c != '/' {
                        push_char(&mut out, '/');
                    }
                },
                None => {},
            }
            let mut j: usize = 0;
            let ghost mid = out@;
            while j < p.len()
                invariant
                    j <= p@.len(),
                    out@ == mid + p@.take(j as int),
                decreases p@.len() - j,
            {
                push_char(&mut out, p[j]);
                j = j + 1;
                assert(out@ =~= mid + p@.take(j as int));
            }
            assert(out@ =~= push_component(acc, p@));
            last = Some(p[p.len() - 1]);
        }
        i = i + 1;
    }
    Some(out)
}

fn last_char(s: &String) -> (r: Option<char>)
    ensures
        r == (if s@.len() == 0 { None } else { Some(s@.last()) }),
{
    let n = s.as_str().unicode_len();
    if n == 0 { None } else { Some(s.as_str().get_char(n - 1)) }
}

// ---------------------------------------------------------------- the filesystem

/// Where the archive bytes live.
pub enum ArchiveSource {
    /// The whole archive is in memory.
    Embedded(Vec<u8>),
    /// The archive stays on disk; its length is known, its ranges are fetched on demand.
    External { len: u64 },
}

/// An open file handle.
pub struct OpenFile {
    pub handle: u32,
    pub path: String,
    pub length: u32,
    /// Index of the loose file that backs this handle, if any.
    pub loose: Option<usize>,
}

/// A named byte buffer (decompressed cache entry or loose file).
pub struct NamedData {
    pub path: String,
    pub data: Vec<u8>,
}

/// An open handle as plain values.
pub struct OpenRecord {
    pub handle: u32,
    pub path: Seq<char>,
    pub length: u32,
    pub loose: Option<nat>,
}

/// The filesystem as plain values.
pub struct VfsView {
    /// The archive bytes when embedded; `None` when external.
    pub archive: Option<Seq<u8>>,
    pub archive_len: nat,
    pub toc: Seq<TocRecord>,
    pub cache: Seq<(Seq<char>, Seq<u8>)>,
    pub open: Seq<OpenRecord>,
    pub next_handle: u32,
    pub loose: Seq<(Seq<char>, Seq<u8>)>,
}

/// Virtual DVD filesystem backed by a GCFS archive and loose files.
pub struct VirtualFilesystem {
    archive: ArchiveSource,
    toc: Vec<TocEntry>,
    file_cache: Vec<NamedData>,
    open_files: Vec<OpenFile>,
    next_handle: u32,
    loose_files: Vec<NamedData>,
}

/// Plain values of a named buffer.
pub open spec fn named(d: NamedData) -> (Seq<char>, Seq<u8>) {
    (d.path@, d.data@)
}

/// Plain values of an open handle.
pub open spec fn open_record(f: OpenFile) -> OpenRecord {
    OpenRecord {
        handle: f.handle,
        path: f.path@,
        length: f.length,
        loose: match f.loose { Some(i) => Some(i as nat), None => None },
    }
}

impl View for VirtualFilesystem {
    type V = VfsView;

    closed spec fn view(&self) -> VfsView {
        VfsView {
            archive: match self.archive { ArchiveSource::Embedded(v) => Some(v@), ArchiveSource::External { .. } => None },
            archive_len: match self.archive { ArchiveSource::Embedded(v) => v@.len(), ArchiveSource::External { len } => len as nat },
            toc: self.toc@.map_values(|e: TocEntry| toc_record(e)),
            cache: self.file_cache@.map_values(|d: NamedData| named(d)),
            open: self.open_files@.map_values(|f: OpenFile| open_record(f)),
            next_handle: self.next_handle,
            loose: self.loose_files@.map_values(|d: NamedData| named(d)),
        }
    }
}

/// Index of the last TOC entry for `p` (later entries replace earlier ones).
pub open spec fn toc_index(toc: Seq<TocRecord>, p: Seq<char>) -> Option<int>
    decreases toc.len(),
{
    if toc.len() == 0 {
        None
    } else if toc.last().path == p {
        Some(toc.len() - 1)
    } else {
        toc_index(toc.drop_last(), p)
    }
}

/// Index of the first TOC entry whose lower-cased path is `lp`.
pub open spec fn toc_index_ci(toc: Seq<TocRecord>, lp: Seq<char>) -> Option<int>
    decreases toc.len(),
{
    if toc.len() == 0 {
        None
    } else {
        match toc_index_ci(toc.drop_last(), lp) {
            Some(i) => Some(i),
            None => if lowercase(toc.last().path) == lp { Some(toc.len() - 1) } else { None },
        }
    }
}

/// Index of the last named buffer called `p`.
pub open spec fn named_index(s: Seq<(Seq<char>, Seq<u8>)>, p: Seq<char>) -> Option<int>
    decreases s.len(),
{
    if s.len() == 0 {
        None
    } else if s.last().0 == p {
        Some(s.len() - 1)
    } else {
        named_index(s.drop_last(), p)
    }
}

/// Index of the last open record with handle `h`.
pub open spec fn open_index(s: Seq<OpenRecord>, h: u32) -> Option<int>
    decreases s.len(),
{
    if s.len() == 0 {
        None
    } else if s.last().handle == h {
        Some(s.len() - 1)
    } else {
        open_index(s.drop_last(), h)
    }
}

/// A DVD path with one leading `/` removed.
pub open spec fn normalize(path: Seq<char>) -> Seq<char> {
    if path.len() > 0 && path[0] == '/' { path.skip(1) } else { path }
}

/// `p` with backslashes turned into slashes.
pub open spec fn forward_slashes(p: Seq<char>) -> Seq<char> {
    p.map_values(|c: char| if c == '\\' { '/' } else { c })
}

/// What `dvd_open` opens for `path`: the stored path, the length and the
/// backing loose file; loose files first, then an exact TOC match, then a
/// case-insensitive one.
pub open spec fn open_target(v: VfsView, path: Seq<char>) -> Option<(Seq<char>, u32, Option<nat>)> {
    let norm = normalize(path);
    let loose = match safe_join_spec(Seq::<char>::empty(), norm) {
        Some(key) => named_index(v.loose, key),
        None => None,
    };
    match loose {
        Some(li) => Some((forward_slashes(norm), if v.loose[li].1.len() > u32::MAX { u32::MAX } else { v.loose[li].1.len() as u32 }, Some(li as nat))),
        None => match toc_index(v.toc, norm) {
            Some(i) => Some((norm, v.toc[i].decompressed_size as u32, None)),
            None => match toc_index_ci(v.toc, lowercase(norm)) {
                Some(i) => {
                    let key = v.toc[i].path;
                    Some((key, v.toc[toc_index(v.toc, key)->0].decompressed_size as u32, None))
                },
                None => None,
            },
        },
    }
}

/// Well-formedness: handles are non-zero, below `next_handle` and distinct;
/// loose indices point at loose files.
pub open spec fn vfs_wf(v: VfsView) -> bool {
    &&& v.next_handle >= 1
    &&& forall|i: int| 0 <= i < v.open.len() ==> 1 <= #[trigger] v.open[i].handle < v.next_handle
    &&& forall|i: int, j: int| 0 <= i < j < v.open.len() ==> #[trigger] v.open[i].handle != #[trigger] v.open[j].handle
    &&& forall|i: int| 0 <= i < v.open.len() ==> (#[trigger] v.open[i].loose matches Some(li) ==> li < v.loose.len())
}

/// The bytes a read copies out of a file of contents `data`.
pub open spec fn read_slice(data: Seq<u8>, length: u32, offset: u32) -> Seq<u8> {
    let start = offset as int;
    let end = if start + length < data.len() { start + length } else { data.len() as int };
    if start >= data.len() { seq![] } else { data.subrange(start, end) }
}

/// Memory after writing `bytes` at `addr`.
pub open spec fn written(mem: Seq<u8>, addr: u32, bytes: Seq<u8>) -> Seq<u8> {
    mem.take(physical(addr) as int) + bytes + mem.skip((physical(addr) + bytes.len()) as int)
}

/// Outcome of copying part of a file into memory: `None` when the target is
/// outside memory, otherwise the byte count and the new memory.
pub open spec fn copy_outcome(data: Seq<u8>, mem: Seq<u8>, addr: u32, length: u32, offset: u32) -> Option<(u32, Seq<u8>)> {
    if offset >= data.len() {
        Some((0, mem))
    } else {
        let bytes = read_slice(data, length, offset);
        if in_ram(addr, bytes.len()) { Some((bytes.len() as u32, written(mem, addr, bytes))) } else { None }
    }
}

/// Copies `file_data[offset..offset + length]` (clipped to the file) to
/// memory at `gc_addr`; returns the number of bytes copied.
pub fn copy_file_range(
    file_data: &[u8],
    memory: &mut MemoryManager,
    gc_addr: u32,
    length: u32,
    offset: u32,
) -> (r: Result<u32, DvdError>)
    requires
        old(memory).wf(),
    ensures
        final(memory).wf(),
        match copy_outcome(file_data@, old(memory)@, gc_addr, length, offset) {
            Some((n, m)) => r == Ok::<u32, DvdError>(n) && final(memory)@ == m,
            None => r == Err::<u32, DvdError>(DvdError::MemoryWrite(gc_addr)) && final(memory)@ == old(memory)@,
        },
{
    let start = offset as usize;
    if start >= file_data.len() {
        return Ok(0);
    }
    let sum = start as u64 + length as u64;
    let end = if sum < file_data.len() as u64 { sum as usize } else { file_data.len() };
    let slice = slice_range(file_data, start, end);
    match memory.write_bytes(gc_addr, slice.as_slice()) {
        Ok(()) => Ok((end - start) as u32),
        Err(_) => Err(DvdError::MemoryWrite(gc_addr)),
    }
}

/// What a read of handle `h` does.
pub enum ReadPlan {
    InvalidHandle,
    MissingEntry,
    OutOfBounds,
    Decompression,
    /// The compressed bytes `offset..offset + length` of the external archive are needed.
    NeedRange(Seq<char>, u64, u64),
    /// Copy from these contents; when the path is given they are newly
    /// decompressed and join the cache under it.
    Copy(Seq<u8>, Option<Seq<char>>),
}

/// What a read of handle `h` does: loose files are read directly, archived
/// files are decompressed on first access and cached.
pub open spec fn read_plan(v: VfsView, h: u32) -> ReadPlan {
    match open_index(v.open, h) {
        None => ReadPlan::InvalidHandle,
        Some(oi) => {
            let f = v.open[oi];
            match f.loose {
                Some(li) => ReadPlan::Copy(v.loose[li as int].1, None),
                None => match named_index(v.cache, f.path) {
                    Some(ci) => ReadPlan::Copy(v.cache[ci].1, None),
                    None => match toc_index(v.toc, f.path) {
                        None => ReadPlan::MissingEntry,
                        Some(ti) => {
                            let e = v.toc[ti];
                            if e.data_offset + e.compressed_size > v.archive_len {
                                ReadPlan::OutOfBounds
                            } else {
                                match v.archive {
                                    None => ReadPlan::NeedRange(f.path, e.data_offset, e.compressed_size),
                                    Some(a) => match zstd_decoded(a.subrange(e.data_offset as int, e.data_offset + e.compressed_size)) {
                                        None => ReadPlan::Decompression,
                                        Some(d) => ReadPlan::Copy(d, Some(f.path)),
                                    },
                                }
                            }
                        },
                    },
                },
            }
        },
    }
}

/// The TOC of an in-memory archive (an empty archive has an empty TOC).
pub open spec fn embedded_toc(a: Seq<u8>) -> Result<Seq<TocRecord>, GcfsError> {
    if a.len() == 0 {
        Ok(seq![])
    } else {
        external_toc(a.len(), a.take(20), a.skip(match parse_header(a.take(20)) { Ok((_, _, off)) => off as int, Err(_) => 0 }))
    }
}

/// The TOC of an archive of `len` bytes, given its 20-byte header and the
/// bytes from the TOC offset to the end.
pub open spec fn external_toc(len: nat, header: Seq<u8>, toc: Seq<u8>) -> Result<Seq<TocRecord>, GcfsError> {
    if len < 20 {
        Err(GcfsError::TooSmall)
    } else {
        match parse_header(header) {
            Err(e) => Err(e),
            Ok((_, count, off)) => if off > len { Err(GcfsError::TocOutOfRange) } else { parse_entries(toc, count as nat, 0) },
        }
    }
}

fn find_open(s: &Vec<OpenFile>, h: u32) -> (r: Option<usize>)
    ensures
        match r {
            Some(i) => open_index(s@.map_values(|f: OpenFile| open_record(f)), h) == Some(i as int) && i < s@.len(),
            None => open_index(s@.map_values(|f: OpenFile| open_record(f)), h) is None,
        },
{
    let ghost v = s@.map_values(|f: OpenFile| open_record(f));
    let mut r: Option<usize> = None;
    for i in 0..s.len()
        invariant
            v == s@.map_values(|f: OpenFile| open_record(f)),
            match r {
                Some(k) => open_index(v.take(i as int), h) == Some(k as int) && k < i,
                None => open_index(v.take(i as int), h) is None,
            },
    {
        assert(v.take(i + 1).drop_last() =~= v.take(i as int));
        if s[i].handle == h {
            r = Some(i);
        }
    }
    assert(v.take(s@.len() as int) =~= v);
    r
}

fn find_named(s: &Vec<NamedData>, p: &str) -> (r: Option<usize>)
    ensures
        match r {
            Some(i) => named_index(s@.map_values(|d: NamedData| named(d)), p@) == Some(i as int) && i < s@.len(),
            None => named_index(s@.map_values(|d: NamedData| named(d)), p@) is None,
        },
{
    let ghost v = s@.map_values(|d: NamedData| named(d));
    let mut r: Option<usize> = None;
    for i in 0..s.len()
        invariant
            v == s@.map_values(|d: NamedData| named(d)),
            match r {
                Some(k) => named_index(v.take(i as int), p@) == Some(k as int) && k < i,
                None => named_index(v.take(i as int), p@) is None,
            },
    {
        assert(v.take(i + 1).drop_last() =~= v.take(i as int));
        if str_eq(s[i].path.as_str(), p) {
            r = Some(i);
        }
    }
    assert(v.take(s@.len() as int) =~= v);
    r
}

fn find_toc(s: &Vec<TocEntry>, p: &str) -> (r: Option<usize>)
    ensures
        match r {
            Some(i) => toc_index(s@.map_values(|e: TocEntry| toc_record(e)), p@) == Some(i as int) && i < s@.len(),
            None => toc_index(s@.map_values(|e: TocEntry| toc_record(e)), p@) is None,
        },
{
    let ghost v = s@.map_values(|e: TocEntry| toc_record(e));
    let mut r: Option<usize> = None;
    for i in 0..s.len()
        invariant
            v == s@.map_values(|e: TocEntry| toc_record(e)),
            match r {
                Some(k) => toc_index(v.take(i as int), p@) == Some(k as int) && k < i,
                None => toc_index(v.take(i as int), p@) is None,
            },
    {
        assert(v.take(i + 1).drop_last() =~= v.take(i as int));
        if str_eq(s[i].path.as_str(), p) {
            r = Some(i);
        }
    }
    assert(v.take(s@.len() as int) =~= v);
    r
}

fn find_toc_ci(s: &Vec<TocEntry>, lp: &str) -> (r: Option<usize>)
    ensures
        match r {
            Some(i) => toc_index_ci(s@.map_values(|e: TocEntry| toc_record(e)), lp@) == Some(i as int) && i < s@.len(),
            None => toc_index_ci(s@.map_values(|e: TocEntry| toc_record(e)), lp@) is None,
        },
{
    let ghost v = s@.map_values(|e: TocEntry| toc_record(e));
    let mut i: usize = 0;
    while i < s.len()
        invariant
            i <= s@.len(),
            v == s@.map_values(|e: TocEntry| toc_record(e)),
            toc_index_ci(v.take(i as int), lp@) is None,
        decreases s@.len() - i,
    {
        assert(v.take(i + 1).drop_last() =~= v.take(i as int));
        let lower = to_lowercase(s[i].path.as_str());
        if str_eq(lower.as_str(), lp) {
            proof {
                lemma_toc_index_ci_prefix(v, lp@, i + 1);
            }
            return Some(i);
        }
        i = i + 1;
    }
    assert(v.take(s@.len() as int) =~= v);
    None
}

/// A match found in a prefix is the match of the whole sequence.
proof fn lemma_toc_index_ci_prefix(v: Seq<TocRecord>, lp: Seq<char>, k: int)
    requires
        0 <= k <= v.len(),
        toc_index_ci(v.take(k), lp) is Some,
    ensures
        toc_index_ci(v, lp) == toc_index_ci(v.take(k), lp),
    decreases v.len() - k,
{
    if k < v.len() {
        assert(v.take(k + 1).drop_last() =~= v.take(k));
        lemma_toc_index_ci_prefix(v, lp, k + 1);
    } else {
        assert(v.take(k) =~= v);
    }
}

/// The characters of `v` as a string.
fn chars_to_string(v: &Vec<char>, from: usize) -> (s: String)
    requires
        from <= v@.len(),
    ensures
        s@ == v@.skip(from as int),
{
    let mut s = String::new();
    let mut i = from;
    while i < v.len()
        invariant
            from <= i <= v@.len(),
            s@ == v@.subrange(from as int, i as int),
        decreases v@.len() - i,
    {
        push_char(&mut s, v[i]);
        i = i + 1;
        assert(s@ =~= v@.subrange(from as int, i as int));
    }
    assert(s@ =~= v@.skip(from as int));
    s
}

fn replace_backslashes(s: &String) -> (r: String)
    ensures
        r@ == forward_slashes(s@),
{
    let cs = str_chars(s.as_str());
    let mut r = String::new();
    for i in 0..cs.len()
        invariant
            cs@ == s@,
            r@ == forward_slashes(cs@.take(i as int)),
    {
        assert(forward_slashes(cs@.take(i + 1)) =~= forward_slashes(cs@.take(i as int)).push(if cs@[i as int] == '\\' { '/' } else { cs@[i as int] }));
        push_char(&mut r, if cs[i] == '\\' { '/' } else { cs[i] });
    }
    assert(cs@.take(cs@.len() as int) =~= cs@);
    r
}

impl VirtualFilesystem {
    /// The consistency every filesystem keeps.
    pub open spec fn wf(&self) -> bool {
        vfs_wf(self@)
    }

    fn with_toc(archive: ArchiveSource, toc: Vec<TocEntry>) -> (v: Self)
        ensures
            v.wf(),
            v@.toc == toc@.map_values(|e: TocEntry| toc_record(e)),
            v@.cache.len() == 0 && v@.open.len() == 0 && v@.loose.len() == 0 && v@.next_handle == 1,
            v@.archive == match archive { ArchiveSource::Embedded(a) => Some(a@), ArchiveSource::External { .. } => None },
            v@.archive_len == match archive { ArchiveSource::Embedded(a) => a@.len(), ArchiveSource::External { len } => len as nat },
    {
        VirtualFilesystem {
            archive,
            toc,
            file_cache: Vec::new(),
            open_files: Vec::new(),
            next_handle: 1,
            loose_files: Vec::new(),
        }
    }

    /// A filesystem over an in-memory GCFS archive; an empty archive gives an
    /// empty filesystem.
    pub fn new(archive: Vec<u8>) -> (r: Result<Self, GcfsError>)
        ensures
            match r {
                Ok(v) => {
                    &&& v.wf()
                    &&& embedded_toc(archive@) == Ok::<Seq<TocRecord>, GcfsError>(v@.toc)
                    &&& v@.archive == Some(archive@) && v@.archive_len == archive@.len()
                    &&& v@.cache.len() == 0 && v@.open.len() == 0 && v@.loose.len() == 0 && v@.next_handle == 1
                },
                Err(e) => embedded_toc(archive@) == Err::<Seq<TocRecord>, GcfsError>(e),
            },
    {
        if archive.len() == 0 {
            let v = Self::with_toc(ArchiveSource::Embedded(archive), Vec::new());
            assert(v@.toc =~= Seq::<TocRecord>::empty());
            return Ok(v);
        }
        if archive.len() < 20 {
            return Err(GcfsError::TooSmall);
        }
        let header = slice_range(archive.as_slice(), 0, 20);
        assert(header@ =~= archive@.take(20));
        let (_, count, off) = match parse_gcfs_header(header.as_slice()) {
            Ok(h) => h,
            Err(e) => { return Err(e); },
        };
        if off > archive.len() as u64 {
            return Err(GcfsError::TocOutOfRange);
        }
        let toc_bytes = slice_range(archive.as_slice(), off as usize, archive.len());
        assert(toc_bytes@ =~= archive@.skip(off as int));
        match parse_toc(toc_bytes.as_slice(), count) {
            Ok(toc) => Ok(Self::with_toc(ArchiveSource::Embedded(archive), toc)),
            Err(e) => Err(e),
        }
    }

    /// A filesystem over an archive kept on disk: `archive_len` is its size,
    /// `header` its first 20 bytes and `toc_data` its bytes from the TOC offset
    /// to the end. Compressed ranges are supplied later, as reads need them.
    pub fn from_external(archive_len: u64, header: &[u8], toc_data: &[u8]) -> (r: Result<Self, GcfsError>)
        ensures
            match r {
                Ok(v) => {
                    &&& v.wf()
                    &&& external_toc(archive_len as nat, header@, toc_data@) == Ok::<Seq<TocRecord>, GcfsError>(v@.toc)
                    &&& v@.archive is None && v@.archive_len == archive_len
                    &&& v@.cache.len() == 0 && v@.open.len() == 0 && v@.loose.len() == 0 && v@.next_handle == 1
                },
                Err(e) => external_toc(archive_len as nat, header@, toc_data@) == Err::<Seq<TocRecord>, GcfsError>(e),
            },
    {
        if archive_len < 20 {
            return Err(GcfsError::TooSmall);
        }
        let (_, count, off) = match parse_gcfs_header(header) {
            Ok(h) => h,
            Err(e) => { return Err(e); },
        };
        if off > archive_len {
            return Err(GcfsError::TocOutOfRange);
        }
        match parse_toc(toc_data, count) {
            Ok(toc) => Ok(Self::with_toc(ArchiveSource::External { len: archive_len }, toc)),
            Err(e) => Err(e),
        }
    }

    /// Registers a loose file that overrides the disc file at `path`
    /// (components joined with `/`, as [`safe_join`] forms them).
    pub fn add_loose_file(&mut self, path: String, data: Vec<u8>)
        requires
            old(self).wf(),
        ensures
            final(self).wf(),
            final(self)@ == (VfsView { loose: old(self)@.loose.push((path@, data@)), ..old(self)@ }),
    {
        let ghost d = NamedData { path, data };
        self.loose_files.push(NamedData { path, data });
        assert(self@.loose =~= old(self)@.loose.push((path@, data@)));
        assert(self@ =~= (VfsView { loose: old(self)@.loose.push((path@, data@)), ..old(self)@ }));
    }
}

impl VirtualFilesystem {
    /// Opens a file by its disc path (a leading `/` is ignored). Loose files
    /// take precedence; then an exact TOC match, then a case-insensitive one.
    /// Returns the new handle (> 0), or 0 when nothing matches or the handles
    /// are used up.
    pub fn dvd_open(&mut self, path: &str) -> (h: u32)
        requires
            old(self).wf(),
        ensures
            final(self).wf(),
            match open_target(old(self)@, path@) {
                Some((p, len, loose)) => if old(self)@.next_handle < u32::MAX {
                    &&& h == old(self)@.next_handle
                    &&& final(self)@ == (VfsView {
                        open: old(self)@.open.push(OpenRecord { handle: h, path: p, length: len, loose }),
                        next_handle: (old(self)@.next_handle + 1) as u32,
                        ..old(self)@
                    })
                } else {
                    h == 0 && final(self)@ == old(self)@
                },
                None => h == 0 && final(self)@ == old(self)@,
            },
    {
        let cs = str_chars(path);
        let from: usize = if cs.len() > 0 && cs[0] == '/' { 1 } else { 0 };
        let normalized = chars_to_string(&cs, from);
        assert(normalized@ == normalize(path@)) by {
            if from == 0 {
                assert(cs@.skip(0) =~= cs@);
            }
        }
        let ghost v = self@;
        let mut target: Option<(String, u32, Option<usize>)> = None;
        let loose = match safe_join("", normalized.as_str()) {
            Some(key) => find_named(&self.loose_files, key.as_str()),
            None => None,
        };
        proof {
            reveal_strlit("");
            assert(""@ =~= Seq::<char>::empty());
        }
        match loose {
            Some(li) => {
                let n = self.loose_files[li].data.len();
                let len: u32 = if n > u32::MAX as usize { u32::MAX } else { n as u32 };
                target = Some((replace_backslashes(&normalized), len, Some(li)));
            },
            None => {
                match find_toc(&self.toc, normalized.as_str()) {
                    Some(i) => {
                        target = Some((normalized, self.toc[i].decompressed_size as u32, None));
                    },
                    None => {
                        let lower = to_lowercase(normalized.as_str());
                        match find_toc_ci(&self.toc, lower.as_str()) {
                            Some(i) => {
                                let key = copy_string(&self.toc[i].path);
                                match find_toc(&self.toc, key.as_str()) {
                                    Some(j) => {
                                        target = Some((key, self.toc[j].decompressed_size as u32, None));
                                    },
                                    None => {
                                        assert(toc_index(v.toc, v.toc[i as int].path) is Some) by {
                                            lemma_toc_index_found(v.toc, i as int);
                                        }
                                    },
                                }
                            },
                            None => {},
                        }
                    },
                }
            },
        }
        match target {
            Some((p, len, loose)) => {
                if self.next_handle == u32::MAX {
                    return 0;
                }
                let h = self.next_handle;
                let ghost rec = OpenRecord { handle: h, path: p@, length: len, loose: match loose { Some(i) => Some(i as nat), None => None } };
                self.open_files.push(OpenFile { handle: h, path: p, length: len, loose });
                self.next_handle = self.next_handle + 1;
                assert(self@.open =~= v.open.push(rec));
                assert(self@ =~= (VfsView { open: v.open.push(rec), next_handle: (v.next_handle + 1) as u32, ..v }));
                h
            },
            None => 0,
        }
    }

    /// Closes a handle; returns whether it was open.
    pub fn dvd_close(&mut self, handle: u32) -> (closed: bool)
        requires
            old(self).wf(),
        ensures
            final(self).wf(),
            match open_index(old(self)@.open, handle) {
                Some(i) => closed && final(self)@ == (VfsView { open: old(self)@.open.remove(i), ..old(self)@ }),
                None => !closed && final(self)@ == old(self)@,
            },
    {
        match find_open(&self.open_files, handle) {
            Some(i) => {
                let ghost v = self@;
                self.open_files.remove(i);
                assert(self@.open =~= v.open.remove(i as int));
                assert(self@ =~= (VfsView { open: v.open.remove(i as int), ..v }));
                proof {
                    let o = self@.open;
                    assert forall|a: int, b: int| 0 <= a < b < o.len() implies #[trigger] o[a].handle != #[trigger] o[b].handle by {
                        let a2 = if a < i { a } else { a + 1 };
                        let b2 = if b < i { b } else { b + 1 };
                        assert(o[a] == v.open[a2] && o[b] == v.open[b2]);
                    }
                    assert forall|a: int| 0 <= a < o.len() implies 1 <= #[trigger] o[a].handle < self@.next_handle
                        && (o[a].loose matches Some(li) ==> li < self@.loose.len()) by {
                        let a2 = if a < i { a } else { a + 1 };
                        assert(o[a] == v.open[a2]);
                    }
                }
                true
            },
            None => false,
        }
    }

    /// The decompressed length of an open file, or 0 for an unknown handle.
    pub fn dvd_get_length(&self, handle: u32) -> (len: u32)
        ensures
            len == match open_index(self@.open, handle) {
                Some(i) => self@.open[i].length,
                None => 0,
            },
    {
        match find_open(&self.open_files, handle) {
            Some(i) => self.open_files[i].length,
            None => 0,
        }
    }

    /// Decompresses bytes fetched from an external archive and caches them under `path`.
    pub fn cache_compressed(&mut self, path: &str, compressed: &[u8]) -> (r: Result<(), DvdError>)
        requires
            old(self).wf(),
        ensures
            final(self).wf(),
            match zstd_decoded(compressed@) {
                None => r == Err::<(), DvdError>(DvdError::Decompression) && final(self)@ == old(self)@,
                Some(d) => r == Ok::<(), DvdError>(()) && final(self)@ == (if named_index(old(self)@.cache, path@) is Some {
                    old(self)@
                } else {
                    VfsView { cache: old(self)@.cache.push((path@, d)), ..old(self)@ }
                }),
            },
    {
        let data = match zstd_decode_all(compressed) {
            Ok(d) => d,
            Err(_) => { return Err(DvdError::Decompression); },
        };
        if find_named(&self.file_cache, path).is_none() {
            let ghost v = self@;
            let p = str_to_string(path);
            let ghost entry = (p@, data@);
            self.file_cache.push(NamedData { path: p, data });
            assert(self@.cache =~= v.cache.push(entry));
            assert(self@ =~= (VfsView { cache: v.cache.push(entry), ..v }));
        }
        Ok(())
    }

    /// Reads up to `length` bytes at `offset` of an open file into memory at
    /// `gc_addr`, decompressing and caching archived files on first access.
    /// Returns the number of bytes copied.
    pub fn dvd_read(
        &mut self,
        handle: u32,
        memory: &mut MemoryManager,
        gc_addr: u32,
        length: u32,
        offset: u32,
    ) -> (r: Result<u32, DvdError>)
        requires
            old(self).wf(),
            old(memory).wf(),
        ensures
            final(self).wf(),
            final(memory).wf(),
            match read_plan(old(self)@, handle) {
                ReadPlan::InvalidHandle => r == Err::<u32, DvdError>(DvdError::InvalidHandle(handle))
                    && final(self)@ == old(self)@ && final(memory)@ == old(memory)@,
                ReadPlan::MissingEntry => r == Err::<u32, DvdError>(DvdError::MissingEntry)
                    && final(self)@ == old(self)@ && final(memory)@ == old(memory)@,
                ReadPlan::OutOfBounds => r == Err::<u32, DvdError>(DvdError::OutOfBounds)
                    && final(self)@ == old(self)@ && final(memory)@ == old(memory)@,
                ReadPlan::Decompression => r == Err::<u32, DvdError>(DvdError::Decompression)
                    && final(self)@ == old(self)@ && final(memory)@ == old(memory)@,
                ReadPlan::NeedRange(p, o, l) => (r matches Err(DvdError::NeedArchiveRange { path, offset, length })
                    && path@ == p && offset == o && length == l)
                    && final(self)@ == old(self)@ && final(memory)@ == old(memory)@,
                ReadPlan::Copy(data, fresh) => {
                    &&& final(self)@ == match fresh {
                        Some(p) => VfsView { cache: old(self)@.cache.push((p, data)), ..old(self)@ },
                        None => old(self)@,
                    }
                    &&& match copy_outcome(data, old(memory)@, gc_addr, length, offset) {
                        Some((n, m)) => r == Ok::<u32, DvdError>(n) && final(memory)@ == m,
                        None => r == Err::<u32, DvdError>(DvdError::MemoryWrite(gc_addr)) && final(memory)@ == old(memory)@,
                    }
                },
            },
    {
        let ghost v = self@;
        let oi = match find_open(&self.open_files, handle) {
            Some(i) => i,
            None => { return Err(DvdError::InvalidHandle(handle)); },
        };
        match self.open_files[oi].loose {
            Some(li) => {
                assert(v.open[oi as int].loose == Some(li as nat));
                return copy_file_range(self.loose_files[li].data.as_slice(), memory, gc_addr, length, offset);
            },
            None => {},
        }
        let path = copy_string(&self.open_files[oi].path);
        match find_named(&self.file_cache, path.as_str()) {
            Some(ci) => {
                return copy_file_range(self.file_cache[ci].data.as_slice(), memory, gc_addr, length, offset);
            },
            None => {},
        }
        let ti = match find_toc(&self.toc, path.as_str()) {
            Some(t) => t,
            None => { return Err(DvdError::MissingEntry); },
        };
        let off = self.toc[ti].data_offset;
        let size = self.toc[ti].compressed_size;
        let alen: u64 = match &self.archive {
            ArchiveSource::Embedded(a) => a.len() as u64,
            ArchiveSource::External { len } => *len,
        };
        if off > alen || size > alen - off {
            return Err(DvdError::OutOfBounds);
        }
        let data = match &self.archive {
            ArchiveSource::External { .. } => {
                return Err(DvdError::NeedArchiveRange { path, offset: off, length: size });
            },
            ArchiveSource::Embedded(a) => {
                let compressed = slice_range(a.as_slice(), off as usize, (off + size) as usize);
                match zstd_decode_all(compressed.as_slice()) {
                    Ok(d) => d,
                    Err(_) => { return Err(DvdError::Decompression); },
                }
            },
        };
        let ghost entry = (path@, data@);
        self.file_cache.push(NamedData { path, data });
        assert(self@.cache =~= v.cache.push(entry));
        assert(self@ =~= (VfsView { cache: v.cache.push(entry), ..v }));
        let last = self.file_cache.len() - 1;
        copy_file_range(self.file_cache[last].data.as_slice(), memory, gc_addr, length, offset)
    }
}

proof fn lemma_open_index(s: Seq<OpenRecord>, h: u32)
    ensures
        match open_index(s, h) {
            Some(i) => 0 <= i < s.len() && s[i].handle == h,
            None => forall|j: int| 0 <= j < s.len() ==> s[j].handle != h,
        },
    decreases s.len(),
{
    if s.len() > 0 {
        lemma_open_index(s.drop_last(), h);
        assert forall|j: int| 0 <= j < s.len() - 1 implies s[j] == s.drop_last()[j] by {}
    }
}

proof fn lemma_named_index(s: Seq<(Seq<char>, Seq<u8>)>, p: Seq<char>)
    ensures
        match named_index(s, p) {
            Some(i) => 0 <= i < s.len() && s[i].0 == p,
            None => forall|j: int| 0 <= j < s.len() ==> s[j].0 != p,
        },
    decreases s.len(),
{
    if s.len() > 0 {
        lemma_named_index(s.drop_last(), p);
        assert forall|j: int| 0 <= j < s.len() - 1 implies s[j] == s.drop_last()[j] by {}
    }
}

pub(crate) proof fn lemma_toc_index(s: Seq<TocRecord>, p: Seq<char>)
    ensures
        match toc_index(s, p) {
            Some(i) => 0 <= i < s.len() && s[i].path == p,
            None => forall|j: int| 0 <= j < s.len() ==> s[j].path != p,
        },
    decreases s.len(),
{
    if s.len() > 0 {
        lemma_toc_index(s.drop_last(), p);
        assert forall|j: int| 0 <= j < s.len() - 1 implies s[j] == s.drop_last()[j] by {}
    }
}

proof fn lemma_toc_index_ci(s: Seq<TocRecord>, lp: Seq<char>)
    ensures
        match toc_index_ci(s, lp) {
            Some(i) => 0 <= i < s.len() && lowercase(s[i].path) == lp,
            None => true,
        },
    decreases s.len(),
{
    if s.len() > 0 {
        lemma_toc_index_ci(s.drop_last(), lp);
        match toc_index_ci(s.drop_last(), lp) {
            Some(i) => { assert(s[i] == s.drop_last()[i]); },
            None => {},
        }
    }
}

/// The entry `toc_index` finds for the path of entry `i`.
proof fn lemma_toc_index_found(toc: Seq<TocRecord>, i: int)
    requires
        0 <= i < toc.len(),
    ensures
        toc_index(toc, toc[i].path) is Some,
    decreases toc.len(),
{
    if toc.last().path != toc[i].path {
        assert(i < toc.len() - 1);
        assert(toc.drop_last()[i] == toc[i]);
        lemma_toc_index_found(toc.drop_last(), i);
    }
}

/// A copy of a string.
fn copy_string(s: &String) -> (r: String)
    ensures
        r@ == s@,
{
    str_to_string(s.as_str())
}

/// The string holding the characters of `s`.
fn str_to_string(s: &str) -> (r: String)
    ensures
        r@ == s@,
{
    let mut r = String::new();
    push_str(&mut r, s);
    assert(r@ =~= s@);
    r
}


proof fn lemma_join_components(acc: Seq<char>, parts: Seq<Seq<char>>)
    ensures
        join_components(acc, parts) matches Some(p) ==> p.len() >= acc.len() && p.take(acc.len() as int) == acc,
        (exists|i: int| 0 <= i < parts.len() && is_parent(#[trigger] parts[i])) ==> join_components(acc, parts) is None,
    decreases parts.len(),
{
    if parts.len() > 0 {
        let p = parts[0];
        let rest = parts.drop_first();
        let next = if p.len() == 0 || is_current(p) { acc } else { push_component(acc, p) };
        lemma_join_components(next, rest);
        assert(next.len() >= acc.len() && next.take(acc.len() as int) =~= acc);
        match join_components(acc, parts) {
            Some(r) => {
                if !is_parent(p) {
                    assert(r.take(acc.len() as int) =~= r.take(next.len() as int).take(acc.len() as int));
                }
            },
            None => {},
        }
        if exists|i: int| 0 <= i < parts.len() && is_parent(#[trigger] parts[i]) {
            let i = choose|i: int| 0 <= i < parts.len() && is_parent(#[trigger] parts[i]);
            if i > 0 {
                assert(rest[i - 1] == parts[i]);
            }
        }
    }
}

/// A loose-file path never leaves its root: a joined path starts with the
/// root, and joining fails for an absolute path or one with a `..` component.
pub proof fn lemma_safe_join_stays_under_root(root: Seq<char>, relative: Seq<char>)
    ensures
        safe_join_spec(root, relative) matches Some(p) ==> p.len() >= root.len() && p.take(root.len() as int) == root,
        (relative.len() > 0 && relative[0] == '/') ==> safe_join_spec(root, relative) is None,
        (exists|i: int| 0 <= i < split_slash(relative).len() && is_parent(#[trigger] split_slash(relative)[i]))
            ==> safe_join_spec(root, relative) is None,
{
    lemma_join_components(root, split_slash(relative));
}


/// A read copies at most `length` bytes, and exactly as many as the file
/// holds from `offset` on when that is fewer: the bytes of the file from
/// `offset` land at `addr`, and every other byte of memory is unchanged.
pub proof fn lemma_read_stays_within_length(data: Seq<u8>, mem: Seq<u8>, addr: u32, length: u32, offset: u32)
    requires
        mem.len() == RAM_SIZE,
    ensures
        copy_outcome(data, mem, addr, length, offset) matches Some((n, m2)) ==> {
            &&& n <= length
            &&& n == if offset >= data.len() { 0 } else if offset + length <= data.len() { length as int } else { data.len() - offset }
            &&& m2.len() == mem.len()
            &&& forall|j: int| 0 <= j < n ==> #[trigger] m2[physical(addr) + j] == data[offset + j]
            &&& forall|i: int| 0 <= i < mem.len() && !(physical(addr) <= i < physical(addr) + n) ==> #[trigger] m2[i] == mem[i]
        },
{
    if offset < data.len() {
        let bytes = read_slice(data, length, offset);
        if in_ram(addr, bytes.len()) {
            let m2 = written(mem, addr, bytes);
            assert(m2.len() == mem.len());
            assert forall|j: int| 0 <= j < bytes.len() implies #[trigger] m2[physical(addr) + j] == data[offset + j] by {
                assert(m2[physical(addr) + j] == bytes[j]);
            }
            assert forall|i: int| 0 <= i < mem.len() && !(physical(addr) <= i < physical(addr) + bytes.len()) implies #[trigger] m2[i] == mem[i] by {
                if i < physical(addr) {
                    assert(m2[i] == mem.take(physical(addr) as int)[i]);
                } else {
                    assert(m2[i] == mem.skip((physical(addr) + bytes.len()) as int)[i - physical(addr) - bytes.len()]);
                }
            }
        }
    }
}

} // verus!
