//! The DOL executable format: a 256-byte header describing up to 7 text and
//! 11 data sections (file offset, load address, size), the BSS range and the
//! entry point, followed by the section bytes.
use vstd::prelude::*;
use crate::disc::{be_u32, read_u32_be};

verus! {

/// One loaded section: its load address and bytes.
pub struct DolSection {
    pub address: u32,
    pub data: Vec<u8>,
}

/// A parsed DOL executable.
pub struct DolFile {
    pub path: String,
    pub text_sections: Vec<DolSection>,
    pub data_sections: Vec<DolSection>,
    pub entry_point: u32,
    pub bss_address: u32,
    pub bss_size: u32,
}

/// Why DOL bytes could not be parsed.
#[derive(Clone, Copy, Debug, PartialEq, Eq, Structural)]
pub enum DolError {
    /// Fewer than 256 bytes.
    TooSmall,
    /// Header slot `slot` (0..7 text, 7..18 data) describes bytes past the end.
    SectionOutOfBounds { slot: usize },
}

/// A section as plain values.
pub open spec fn section_model(s: DolSection) -> (u32, Seq<u8>) {
    (s.address, s.data@)
}

/// File offset, load address and size of header slot `i` (0..7 text, 7..18 data).
pub open spec fn dol_slot(h: Seq<u8>, i: int) -> (u32, u32, u32) {
    if i < 7 {
        (be_u32(h, 4 * i), be_u32(h, 0x48 + 4 * i), be_u32(h, 0x90 + 4 * i))
    } else {
        (be_u32(h, 0x1c + 4 * (i - 7)), be_u32(h, 0x64 + 4 * (i - 7)), be_u32(h, 0xac + 4 * (i - 7)))
    }
}

/// Whether slot `i` is used and describes bytes past the end of `data`.
pub open spec fn slot_out_of_bounds(data: Seq<u8>, i: int) -> bool {
    let (off, _addr, size) = dol_slot(data, i);
    size != 0 && off as nat + size as nat > data.len()
}

/// The first slot in `[from, to)` that is out of bounds.
pub open spec fn first_bad_slot(data: Seq<u8>, from: nat, to: nat) -> Option<nat>
    decreases to - from,
{
    if from >= to {
        None
    } else if slot_out_of_bounds(data, from as int) {
        Some(from)
    } else {
        first_bad_slot(data, from + 1, to)
    }
}

/// The used slots among `[from, to)`, in order, as sections.
pub open spec fn slot_sections(data: Seq<u8>, from: nat, to: nat) -> Seq<(u32, Seq<u8>)>
    decreases to - from,
{
    if from >= to {
        seq![]
    } else {
        let (off, addr, size) = dol_slot(data, from as int);
        let rest = slot_sections(data, from + 1, to);
        if size == 0 { rest } else { seq![(addr, data.subrange(off as int, off + size))] + rest }
    }
}

/// Copies `data[start..start + len]`.
fn copy_range(data: &[u8], start: usize, len: usize) -> (r: Vec<u8>)
    requires
        start + len <= data@.len(),
    ensures
        r@ == data@.subrange(start as int, start + len),
{
    let mut r: Vec<u8> = Vec::new();
    let mut i: usize = 0;
    let n = data.len();
    while i < len
        invariant
            n == data@.len(),
            start + len <= data@.len(),
            i <= len,
            r@ == data@.subrange(start as int, start + i),
        decreases len - i,
    {
        r.push(data[start + i]);
        i = i + 1;
        assert(r@ =~= data@.subrange(start as int, start + i));
    }
    r
}

/// Reads slots `[from, to)` into sections, or names the first out-of-bounds slot.
fn read_slots(data: &[u8], from: usize, to: usize) -> (r: Result<Vec<DolSection>, DolError>)
    requires
        data@.len() >= 256,
        from <= to <= 18,
    ensures
        match r {
            Ok(v) => first_bad_slot(data@, from as nat, to as nat) is None
                && v@.map_values(|s: DolSection| section_model(s)) == slot_sections(data@, from as nat, to as nat),
            Err(e) => first_bad_slot(data@, from as nat, to as nat) matches Some(i)
                && e == (DolError::SectionOutOfBounds { slot: i as usize }),
        },
    decreases to - from,
{
    if from >= to {
        let v: Vec<DolSection> = Vec::new();
        assert(v@.map_values(|s: DolSection| section_model(s)) =~= seq![]);
        return Ok(v);
    }
    let (off_at, addr_at, size_at) = if from < 7 {
        (from * 4, 0x48 + from * 4, 0x90 + from * 4)
    } else {
        (0x1c + (from - 7) * 4, 0x64 + (from - 7) * 4, 0xac + (from - 7) * 4)
    };
    let off = read_u32_be(data, off_at);
    let addr = read_u32_be(data, addr_at);
    let size = read_u32_be(data, size_at);
    if size != 0 && (off as u64 + size as u64) > data.len() as u64 {
        return Err(DolError::SectionOutOfBounds { slot: from });
    }
    match read_slots(data, from + 1, to) {
        Err(e) => Err(e),
        Ok(rest) => {
            if size == 0 {
                Ok(rest)
            } else {
                let bytes = copy_range(data, off as usize, size as usize);
                let mut v: Vec<DolSection> = Vec::new();
                v.push(DolSection { address: addr, data: bytes });
                let ghost first = section_model(v@[0]);
                let ghost rest_m = rest@.map_values(|s: DolSection| section_model(s));
                let mut rest = rest;
                v.append(&mut rest);
                proof {
                    assert(v@.map_values(|s: DolSection| section_model(s)) =~= seq![first] + rest_m);
                }
                Ok(v)
            }
        },
    }
}

impl DolFile {
    /// Parses DOL bytes: the 7 text and 11 data header slots, in order, each
    /// used slot (size not zero) becoming a section with its load address and
    /// bytes; then the BSS address and size and the entry point.
    ///
    /// Fails on fewer than 256 bytes, or on the first used slot whose bytes
    /// run past the end.
    pub fn parse(data: &[u8], path: &str) -> (r: Result<DolFile, DolError>)
        ensures
            data@.len() < 256 ==> r == Err::<DolFile, DolError>(DolError::TooSmall),
            data@.len() >= 256 ==> match first_bad_slot(data@, 0, 18) {
                Some(i) => r == Err::<DolFile, DolError>(DolError::SectionOutOfBounds { slot: i as usize }),
                None => r matches Ok(d) && {
                    &&& d.path@ == path@
                    &&& d.text_sections@.map_values(|s: DolSection| section_model(s)) == slot_sections(data@, 0, 7)
                    &&& d.data_sections@.map_values(|s: DolSection| section_model(s)) == slot_sections(data@, 7, 18)
                    &&& d.bss_address == be_u32(data@, 0xd8)
                    &&& d.bss_size == be_u32(data@, 0xdc)
                    &&& d.entry_point == be_u32(data@, 0xe0)
                },
            },
    {
        if data.len() < 256 {
            return Err(DolError::TooSmall);
        }
        proof {
            lemma_first_bad_slot_split(data@, 0, 7, 18);
        }
        let text = match read_slots(data, 0, 7) {
            Ok(v) => v,
            Err(e) => { return Err(e); },
        };
        let sections = match read_slots(data, 7, 18) {
            Ok(v) => v,
            Err(e) => { return Err(e); },
        };
        Ok(DolFile {
            path: path.to_string(),
            text_sections: text,
            data_sections: sections,
            entry_point: read_u32_be(data, 0xe0),
            bss_address: read_u32_be(data, 0xd8),
            bss_size: read_u32_be(data, 0xdc),
        })
    }
}

/// Scanning `[a, c)` finds the first bad slot of `[a, b)` if any, else that of `[b, c)`.
proof fn lemma_first_bad_slot_split(data: Seq<u8>, a: nat, b: nat, c: nat)
    requires
        a <= b <= c,
    ensures
        first_bad_slot(data, a, c) == match first_bad_slot(data, a, b) {
            Some(i) => Some(i),
            None => first_bad_slot(data, b, c),
        },
    decreases b - a,
{
    if a < b {
        lemma_first_bad_slot_split(data, a + 1, b, c);
    }
}

} // verus!
