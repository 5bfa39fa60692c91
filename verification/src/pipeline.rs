//! The recompilation pipeline: decode a DOL's text sections, discover
//! function boundaries (from a symbol map and/or a linear sweep), and
//! generate one Rust module holding every function, an address dispatcher
//! and a loader for the DOL's memory image.
use vstd::prelude::*;
use crate::analysis::{FunctionInfo, FunctionMetadata, GhidraAnalysis, ParameterInfo, TypeInfo, VariableInfo};
use crate::codegen::CodeGenerator;
use crate::codegen::spec::{function_name, gen_function};
use crate::decoder::{DecodedInstruction, Instruction, classify, decodes_to, same_decoded, same_decoded_seq};
use crate::disc::{be_u32, read_u32_be};
use crate::dol::{DolFile, DolSection, section_model};
use crate::codegen::insert_leader;
use crate::codegen::spec::{in_range, insert_sorted, lemma_insert_sorted_sorted, strictly_sorted};
use crate::decoder::{branch_disp26, disp26};
use crate::codegen::spec::count_lt;
use crate::symbols::{is_white, is_whitespace, number_value, parse_hex_u32, parse_usize, split_lines, trim_range, trimmed};
use crate::text::{hex8, hex_pad, push_char, push_hex8, push_hex_pad, push_str, push_string};
use std::collections::HashSet;
use vstd::string::*;

verus! {

/// Why a pipeline step could not run.
#[derive(Debug, PartialEq, Eq)]
pub enum PipelineError {
    /// No DOL file has been loaded into the context.
    NoDolLoaded,
    /// No function analysis is present in the context.
    NoAnalysis,
    /// No instructions have been decoded into the context.
    NoInstructions,
    /// A symbol-map line (1-based) holds an address that is not hexadecimal.
    InvalidAddress { line: usize },
    /// The external function analysis failed with this message.
    AnalysisFailed(String),
}

// ---------------------------------------------------------------- decoding

/// Word and address of the `i`-th whole word of a section loaded at `base`.
pub open spec fn chunk(data: Seq<u8>, base: u32, i: int) -> (u32, u32) {
    (be_u32(data, 4 * i), base.wrapping_add((4 * i) as u32))
}

/// Word and address of the first `n` whole words of a section.
pub open spec fn section_chunks(data: Seq<u8>, base: u32, n: nat) -> Seq<(u32, u32)>
    decreases n,
{
    if n == 0 { seq![] } else { section_chunks(data, base, (n - 1) as nat).push(chunk(data, base, n - 1)) }
}

/// Word and address of every whole word of the first `n` sections, in order.
pub open spec fn sections_chunks(secs: Seq<(u32, Seq<u8>)>, n: nat) -> Seq<(u32, u32)>
    decreases n,
{
    if n == 0 {
        seq![]
    } else {
        let (base, data) = secs[n - 1];
        sections_chunks(secs, (n - 1) as nat) + section_chunks(data, base, data.len() / 4)
    }
}

/// The words among `ps` that decode, in order.
pub open spec fn decodable(ps: Seq<(u32, u32)>) -> Seq<(u32, u32)>
    decreases ps.len(),
{
    if ps.len() == 0 {
        seq![]
    } else {
        let prev = decodable(ps.drop_last());
        if classify(ps.last().0) is Some { prev.push(ps.last()) } else { prev }
    }
}

/// `v` is, element by element, the decoding of the words and addresses `ps`.
pub open spec fn decoded_from(v: Seq<DecodedInstruction>, ps: Seq<(u32, u32)>) -> bool {
    &&& v.len() == ps.len()
    &&& forall|i: int| 0 <= i < v.len() ==> decodes_to(#[trigger] v[i], ps[i].0, ps[i].1)
}

/// The text sections of a DOL as plain values.
pub open spec fn text_model(dol: DolFile) -> Seq<(u32, Seq<u8>)> {
    dol.text_sections@.map_values(|s: DolSection| section_model(s))
}

/// The data sections of a DOL as plain values.
pub open spec fn data_model(dol: DolFile) -> Seq<(u32, Seq<u8>)> {
    dol.data_sections@.map_values(|s: DolSection| section_model(s))
}

/// Every whole word of the text sections with its address.
pub open spec fn program_words(dol: DolFile) -> Seq<(u32, u32)> {
    sections_chunks(text_model(dol), text_model(dol).len())
}

// ---------------------------------------------------------------- functions

/// End of the function at `address` with `size` bytes (a size of 0 counts
/// as one word), as an integer: a range may run past the top of memory.
pub open spec fn function_end(address: u32, size: u32) -> int {
    address + if size == 0 { 4int } else { size as int }
}

/// The instructions whose address lies in `[address, function_end(address, size))`, in order.
pub open spec fn select_function(insts: Seq<DecodedInstruction>, address: u32, size: u32) -> Seq<DecodedInstruction>
    decreases insts.len(),
{
    if insts.len() == 0 {
        seq![]
    } else {
        let prev = select_function(insts.drop_last(), address, size);
        let d = insts.last();
        if address <= d.address && d.address < function_end(address, size) { prev.push(d) } else { prev }
    }
}

// ---------------------------------------------------------------- memory image

/// Little-endian bytes of a 32-bit value.
pub open spec fn le32(v: u32) -> Seq<u8> {
    seq![(v % 0x100) as u8, ((v / 0x100) % 0x100) as u8, ((v / 0x1_0000) % 0x100) as u8, (v / 0x100_0000) as u8]
}

/// The memory image of `secs`: for each non-empty section, its address and
/// length (32-bit little-endian) followed by its bytes.
pub open spec fn image_bytes(secs: Seq<(u32, Seq<u8>)>) -> Seq<u8>
    decreases secs.len(),
{
    if secs.len() == 0 {
        seq![]
    } else {
        let prev = image_bytes(secs.drop_last());
        let (a, d) = secs.last();
        if d.len() == 0 { prev } else { prev + le32(a) + le32(d.len() as u32) + d }
    }
}

/// Text then data sections, as plain values.
pub open spec fn all_sections(dol: DolFile) -> Seq<(u32, Seq<u8>)> {
    text_model(dol) + data_model(dol)
}

fn push_le32(out: &mut Vec<u8>, v: u32)
    ensures
        final(out)@ == old(out)@ + le32(v),
{
    out.push((v % 0x100) as u8);
    out.push(((v / 0x100) % 0x100) as u8);
    out.push(((v / 0x1_0000) % 0x100) as u8);
    out.push((v / 0x100_0000) as u8);
    assert(final(out)@ =~= old(out)@ + le32(v));
}

/// Appends the image of one section (nothing when it is empty).
fn push_section_image(out: &mut Vec<u8>, sec: &DolSection)
    ensures
        final(out)@ == old(out)@ + if sec.data@.len() == 0 {
            Seq::<u8>::empty()
        } else {
            le32(sec.address) + le32(sec.data@.len() as u32) + sec.data@
        },
{
    if sec.data.len() > 0 {
        let ghost start = out@;
        push_le32(out, sec.address);
        push_le32(out, sec.data.len() as u32);
        let ghost base = out@;
        let mut j: usize = 0;
        while j < sec.data.len()
            invariant
                j <= sec.data@.len(),
                out@ == base + sec.data@.take(j as int),
            decreases sec.data@.len() - j,
        {
            out.push(sec.data[j]);
            j = j + 1;
            assert(out@ =~= base + sec.data@.take(j as int));
        }
        assert(sec.data@.take(j as int) =~= sec.data@);
        assert(out@ =~= start + (le32(sec.address) + le32(sec.data@.len() as u32) + sec.data@));
    } else {
        assert(out@ =~= old(out)@ + Seq::<u8>::empty());
    }
}

/// The unit of the pipeline's functions.
pub struct RecompilationPipeline;

impl RecompilationPipeline {
    /// Decodes every whole big-endian word of the text sections, in section
    /// order, at the section's address plus four times its index; words that
    /// do not decode are skipped.
    pub fn decode_all_instructions(dol: &DolFile) -> (r: Result<Vec<DecodedInstruction>, PipelineError>)
        ensures
            r matches Ok(v) && decoded_from(v@, decodable(program_words(*dol))),
    {
        let ghost tm = text_model(*dol);
        let mut out: Vec<DecodedInstruction> = Vec::new();
        let ns = dol.text_sections.len();
        let mut s: usize = 0;
        while s < ns
            invariant
                ns == dol.text_sections@.len(),
                tm == text_model(*dol),
                s <= ns,
                decoded_from(out@, decodable(sections_chunks(tm, s as nat))),
            decreases ns - s,
        {
            let sec = &dol.text_sections[s];
            let data = sec.data.as_slice();
            let base = sec.address;
            let len = data.len();
            let n = len / 4;
            let ghost prefix = sections_chunks(tm, s as nat);
            assert(tm[s as int] == (base, data@));
            let mut i: usize = 0;
            while i < n
                invariant
                    len == data@.len(),
                    n == data@.len() / 4,
                    i <= n,
                    decoded_from(out@, decodable(prefix + section_chunks(data@, base, i as nat))),
                decreases n - i,
            {
                assert(i * 4 + 4 <= data@.len()) by (nonlinear_arith)
                    requires
                        i < n,
                        n == data@.len() / 4,
                ;
                let word = read_u32_be(data, i * 4);
                let addr = base.wrapping_add((i * 4) as u32);
                let ghost before = out@;
                let ghost ps = prefix + section_chunks(data@, base, i as nat);
                let ghost ps1 = prefix + section_chunks(data@, base, (i + 1) as nat);
                assert(ps1 =~= ps.push(chunk(data@, base, i as int)));
                assert(ps1.drop_last() =~= ps);
                match Instruction::decode(word, addr) {
                    Ok(d) => {
                        out.push(d);
                        assert(decodable(ps1) =~= decodable(ps).push((word, addr)));
                        assert forall|k: int| 0 <= k < out@.len() implies decodes_to(#[trigger] out@[k], decodable(ps1)[k].0, decodable(ps1)[k].1) by {
                            if k < before.len() {
                                assert(out@[k] == before[k]);
                            }
                        }
                    },
                    Err(_) => {
                        assert(decodable(ps1) == decodable(ps));
                    },
                }
                i = i + 1;
            }
            assert(sections_chunks(tm, (s + 1) as nat) == prefix + section_chunks(data@, base, n as nat));
            s = s + 1;
        }
        assert(tm.len() == ns);
        Ok(out)
    }

    /// The instructions that fall inside `func` (`func.address` up to
    /// [`function_end`]), in their original order.
    pub fn map_instructions_to_function(func: &FunctionInfo, instructions: &[DecodedInstruction]) -> (r: Vec<DecodedInstruction>)
        ensures
            same_decoded_seq(r@, select_function(instructions@, func.address, func.size)),
    {
        let size: u64 = if func.size == 0 { 4 } else { func.size as u64 };
        let end: u64 = func.address as u64 + size;
        let mut out: Vec<DecodedInstruction> = Vec::new();
        let n = instructions.len();
        let mut i: usize = 0;
        while i < n
            invariant
                n == instructions@.len(),
                i <= n,
                end == function_end(func.address, func.size),
                same_decoded_seq(out@, select_function(instructions@.take(i as int), func.address, func.size)),
            decreases n - i,
        {
            let ghost t1 = instructions@.take(i + 1);
            assert(t1.drop_last() =~= instructions@.take(i as int));
            let inst = &instructions[i];
            if func.address <= inst.address && (inst.address as u64) < end {
                let ghost before = out@;
                out.push(inst.duplicate());
                assert forall|k: int| 0 <= k < out@.len() implies same_decoded(#[trigger] out@[k], select_function(t1, func.address, func.size)[k]) by {
                    if k < before.len() {
                        assert(out@[k] == before[k]);
                    }
                }
            }
            i = i + 1;
        }
        assert(instructions@.take(n as int) =~= instructions@);
        out
    }

    /// The DOL's memory image: text then data sections, each non-empty one as
    /// its address and length (32-bit little-endian) followed by its bytes.
    pub fn memory_image(dol: &DolFile) -> (r: Vec<u8>)
        ensures
            r@ == image_bytes(all_sections(*dol)),
    {
        let ghost all = all_sections(*dol);
        let nt = dol.text_sections.len();
        let nd = dol.data_sections.len();
        let mut out: Vec<u8> = Vec::new();
        let mut k: usize = 0;
        while k < nt
            invariant
                nt == dol.text_sections@.len(),
                nd == dol.data_sections@.len(),
                all == all_sections(*dol),
                all.len() == nt + nd,
                k <= nt,
                out@ == image_bytes(all.take(k as int)),
            decreases nt - k,
        {
            let sec = &dol.text_sections[k];
            assert(all[k as int] == section_model(*sec));
            assert(all.take(k + 1).drop_last() =~= all.take(k as int));
            push_section_image(&mut out, sec);
            k = k + 1;
        }
        let mut k: usize = 0;
        while k < nd
            invariant
                nt == dol.text_sections@.len(),
                nd == dol.data_sections@.len(),
                all == all_sections(*dol),
                all.len() == nt + nd,
                k <= nd,
                out@ == image_bytes(all.take(nt + k)),
            decreases nd - k,
        {
            let sec = &dol.data_sections[k];
            assert(all[nt + k] == section_model(*sec));
            assert(all.take(nt + k + 1).drop_last() =~= all.take(nt + k));
            push_section_image(&mut out, sec);
            k = k + 1;
        }
        assert(all.take(nt + nd) =~= all);
        out
    }
}


// ---------------------------------------------------------------- linear sweep

/// The canonical `blr` word (return through the link register).
pub const BLR: u32 = 0x4E80_0020;

/// Default cap on the number of functions a sweep reports: high enough
/// that a whole game (some 13,500 functions) is covered.
pub const DEFAULT_MAX_FUNCS: usize = 2_000_000;

/// Default cap on the number of instructions a sweep scans: high enough
/// that a whole game (some 900,000 instructions) is covered.
pub const DEFAULT_MAX_INSTRS: usize = 20_000_000;

/// A relative `bl`: primary opcode 18 with LK set and AA clear.
pub open spec fn is_relative_call(raw: u32) -> bool {
    raw >> 26 == 18 && raw & 1 == 1 && (raw >> 1) & 1 == 0
}

/// Address and word of the instructions at or after `entry`, in order.
pub open spec fn from_entry(insts: Seq<DecodedInstruction>, entry: u32) -> Seq<(u32, u32)>
    decreases insts.len(),
{
    if insts.len() == 0 {
        seq![]
    } else {
        let prev = from_entry(insts.drop_last(), entry);
        let d = insts.last();
        if d.address >= entry { prev.push((d.address, d.raw)) } else { prev }
    }
}

/// At most the first `max` elements of `s`.
pub open spec fn capped<T>(s: Seq<T>, max: nat) -> Seq<T> {
    if s.len() > max { s.take(max as int) } else { s }
}

/// Function starts of a sweep over `sc` after its first `i` instructions:
/// the first address, every address after a `blr`, and every relative-call
/// target, when inside `[lo, hi)`; sorted without repeats.
pub open spec fn sweep_leaders(sc: Seq<(u32, u32)>, lo: u32, hi: u32, i: nat) -> Seq<u32>
    decreases i,
{
    if i == 0 {
        seq![lo]
    } else {
        let prev = sweep_leaders(sc, lo, hi, (i - 1) as nat);
        let (a, raw) = sc[i - 1];
        let after = a.wrapping_add(4);
        let s1 = if raw == BLR && in_range(after, lo, hi) { insert_sorted(prev, after) } else { prev };
        let target = a.wrapping_add(branch_disp26(raw));
        if is_relative_call(raw) && in_range(target, lo, hi) { insert_sorted(s1, target) } else { s1 }
    }
}

/// Functions `(start, size)` from the first `i` starts: each spans to the next
/// start (or `hi` after the last), empty spans are dropped, and at most
/// `max_funcs` are kept.
pub open spec fn sweep_spans(starts: Seq<u32>, hi: u32, max_funcs: nat, i: nat) -> Seq<(u32, u32)>
    decreases i,
{
    if i == 0 {
        seq![]
    } else {
        let prev = sweep_spans(starts, hi, max_funcs, (i - 1) as nat);
        let start = starts[i - 1];
        let end = if i < starts.len() { starts[i as int] } else { hi };
        let size = end.wrapping_sub(start);
        if prev.len() < max_funcs && size > 0 { prev.push((start, size)) } else { prev }
    }
}

/// The functions a linear sweep finds: scan at most `max_instrs` instructions
/// from `entry`, split at `blr` and at relative-call targets.
pub open spec fn naive_spans(insts: Seq<DecodedInstruction>, entry: u32, max_funcs: nat, max_instrs: nat) -> Seq<(u32, u32)> {
    let sc = capped(from_entry(insts, entry), max_instrs);
    if sc.len() == 0 {
        seq![]
    } else {
        let lo = sc[0].0;
        let hi = sc.last().0.wrapping_add(4);
        let starts = sweep_leaders(sc, lo, hi, sc.len());
        sweep_spans(starts, hi, max_funcs, starts.len())
    }
}

/// The name a sweep gives the function at `a`: `sub_` and eight lower-case hex digits.
pub open spec fn sub_name(a: u32) -> Seq<char> {
    "sub_"@ + hex_pad(a as nat, 8, false)
}

/// `f` is a discovered function at `address` named `name` spanning `size`
/// bytes, with the default calling convention and nothing else known.
pub open spec fn discovered_as(f: FunctionInfo, address: u32, name: Seq<char>, size: u32) -> bool {
    &&& f.address == address
    &&& f.name@ == name
    &&& f.size == size
    &&& f.calling_convention@ == "default"@
    &&& f.parameters@.len() == 0
    &&& f.return_type is None
    &&& f.local_variables@.len() == 0
    &&& f.basic_blocks@.len() == 0
}

/// A discovered function at `address` named `name` spanning `size` bytes.
fn make_function(address: u32, name: String, size: u32) -> (f: FunctionInfo)
    ensures
        discovered_as(f, address, name@, size),
{
    FunctionInfo {
        address,
        name,
        size,
        calling_convention: "default".to_string(),
        parameters: Vec::new(),
        return_type: None,
        local_variables: Vec::new(),
        basic_blocks: Vec::new(),
    }
}

/// Caps on a linear sweep.
#[derive(Clone, Copy, Debug, PartialEq, Eq, Structural)]
pub struct DiscoveryLimits {
    pub max_funcs: usize,
    pub max_instrs: usize,
}

impl DiscoveryLimits {
    /// The caps given as decimal settings; a missing or unparsable setting
    /// takes its default.
    pub fn from_settings(max_funcs: Option<&str>, max_instrs: Option<&str>) -> (r: DiscoveryLimits)
        ensures
            r.max_funcs == match max_funcs {
                Some(s) => match number_value(s@, 10, usize::MAX as nat + 1) {
                    Some(v) => v as usize,
                    None => DEFAULT_MAX_FUNCS,
                },
                None => DEFAULT_MAX_FUNCS,
            },
            r.max_instrs == match max_instrs {
                Some(s) => match number_value(s@, 10, usize::MAX as nat + 1) {
                    Some(v) => v as usize,
                    None => DEFAULT_MAX_INSTRS,
                },
                None => DEFAULT_MAX_INSTRS,
            },
    {
        let f = match max_funcs {
            Some(s) => match parse_usize(s) { Some(v) => v, None => DEFAULT_MAX_FUNCS },
            None => DEFAULT_MAX_FUNCS,
        };
        let i = match max_instrs {
            Some(s) => match parse_usize(s) { Some(v) => v, None => DEFAULT_MAX_INSTRS },
            None => DEFAULT_MAX_INSTRS,
        };
        DiscoveryLimits { max_funcs: f, max_instrs: i }
    }
}

impl Default for DiscoveryLimits {
    fn default() -> (r: Self)
        ensures
            r.max_funcs == DEFAULT_MAX_FUNCS,
            r.max_instrs == DEFAULT_MAX_INSTRS,
    {
        DiscoveryLimits { max_funcs: DEFAULT_MAX_FUNCS, max_instrs: DEFAULT_MAX_INSTRS }
    }
}

/// The functions listed are exactly `spans`, named as a sweep names them.
pub open spec fn lists_sweep(fs: Seq<FunctionInfo>, spans: Seq<(u32, u32)>) -> bool {
    &&& fs.len() == spans.len()
    &&& forall|i: int| 0 <= i < fs.len() ==> discovered_as(#[trigger] fs[i], spans[i].0, sub_name(spans[i].0), spans[i].1)
}

impl RecompilationPipeline {
    /// Finds functions without an external analyzer: a linear sweep over the
    /// instructions at or after `entry` (at most `limits.max_instrs` of them),
    /// starting a function at the first one, after every `blr`, and at every
    /// relative-call target inside the scanned range; each function spans to
    /// the next start, and at most `limits.max_funcs` are reported.
    pub fn naive_function_discovery_bounded(entry: u32, instructions: &[DecodedInstruction], limits: DiscoveryLimits) -> (r: GhidraAnalysis)
        ensures
            lists_sweep(r.functions@, naive_spans(instructions@, entry, limits.max_funcs as nat, limits.max_instrs as nat)),
    {
        let max_funcs = limits.max_funcs;
        let max_instrs = limits.max_instrs;
        let n = instructions.len();
        let mut sc: Vec<(u32, u32)> = Vec::new();
        let mut i: usize = 0;
        while i < n
            invariant
                n == instructions@.len(),
                i <= n,
                sc@ == capped(from_entry(instructions@.take(i as int), entry), max_instrs as nat),
            decreases n - i,
        {
            let ghost prev = from_entry(instructions@.take(i as int), entry);
            assert(instructions@.take(i + 1).drop_last() =~= instructions@.take(i as int));
            let inst = &instructions[i];
            if inst.address >= entry {
                proof {
                    let next = prev.push((inst.address, inst.raw));
                    if prev.len() >= max_instrs {
                        assert(next.take(max_instrs as int) =~= capped(prev, max_instrs as nat));
                    } else {
                        assert(capped(next, max_instrs as nat) == next || capped(next, max_instrs as nat) == next.take(max_instrs as int));
                    }
                }
                if sc.len() < max_instrs {
                    sc.push((inst.address, inst.raw));
                    proof {
                        let next = prev.push((inst.address, inst.raw));
                        assert(sc@ =~= capped(next, max_instrs as nat));
                    }
                }
            }
            i = i + 1;
        }
        assert(instructions@.take(n as int) =~= instructions@);
        let ghost sc_m = sc@;
        if sc.len() == 0 {
            return GhidraAnalysis { functions: Vec::new() };
        }
        let lo = sc[0].0;
        let hi = sc[sc.len() - 1].0.wrapping_add(4);
        let mut leaders: Vec<u32> = Vec::new();
        leaders.push(lo);
        let mut j: usize = 0;
        while j < sc.len()
            invariant
                sc@ == sc_m,
                sc_m.len() > 0,
                lo == sc_m[0].0,
                hi == sc_m.last().0.wrapping_add(4),
                j <= sc_m.len(),
                leaders@ == sweep_leaders(sc_m, lo, hi, j as nat),
                strictly_sorted(leaders@),
            decreases sc_m.len() - j,
        {
            let (a, raw) = sc[j];
            let after = a.wrapping_add(4);
            if raw == BLR && lo <= after && after < hi {
                insert_leader(&mut leaders, after);
            }
            let target = a.wrapping_add(disp26(raw));
            if raw >> 26 == 18 && raw & 1 == 1 && (raw >> 1) & 1 == 0 && lo <= target && target < hi {
                insert_leader(&mut leaders, target);
            }
            j = j + 1;
        }
        let ghost starts = leaders@;
        let mut functions: Vec<FunctionInfo> = Vec::new();
        let ns = leaders.len();
        let mut k: usize = 0;
        while k < ns
            invariant
                leaders@ == starts,
                ns == starts.len(),
                k <= ns,
                lists_sweep(functions@, sweep_spans(starts, hi, max_funcs as nat, k as nat)),
            decreases ns - k,
        {
            let start = leaders[k];
            let end = if k + 1 < ns { leaders[k + 1] } else { hi };
            let size = end.wrapping_sub(start);
            if functions.len() < max_funcs && size > 0 {
                let mut name = String::new();
                push_str(&mut name, "sub_");
                push_hex_pad(&mut name, start as u64, 8, false);
                let ghost before = functions@;
                functions.push(make_function(start, name, size));
                proof {
                    let sp = sweep_spans(starts, hi, max_funcs as nat, (k + 1) as nat);
                    assert forall|t: int| 0 <= t < functions@.len() implies
                        discovered_as(#[trigger] functions@[t], sp[t].0, sub_name(sp[t].0), sp[t].1) by {
                        if t < before.len() {
                            assert(functions@[t] == before[t]);
                        }
                    }
                }
            }
            k = k + 1;
        }
        GhidraAnalysis { functions }
    }

    /// [`Self::naive_function_discovery_bounded`] with the default caps.
    pub fn naive_function_discovery(entry: u32, instructions: &[DecodedInstruction]) -> (r: GhidraAnalysis)
        ensures
            lists_sweep(r.functions@, naive_spans(instructions@, entry, DEFAULT_MAX_FUNCS as nat, DEFAULT_MAX_INSTRS as nat)),
    {
        Self::naive_function_discovery_bounded(entry, instructions, DiscoveryLimits::default())
    }
}


// ---------------------------------------------------------------- symbol maps

/// Index of the first `c` in `s`.
pub open spec fn first_index(s: Seq<char>, c: char) -> Option<int>
    decreases s.len(),
{
    if s.len() == 0 {
        None
    } else {
        match first_index(s.drop_last(), c) {
            Some(i) => Some(i),
            None => if s.last() == c { Some(s.len() - 1) } else { None },
        }
    }
}

/// Whether `s` begins with `p`.
pub open spec fn has_prefix(s: Seq<char>, p: Seq<char>) -> bool {
    p.len() <= s.len() && s.take(p.len() as int) == p
}

/// The characters of `v` before the first whitespace or `;`.
pub open spec fn address_token(v: Seq<char>) -> Seq<char>
    decreases v.len(),
{
    if v.len() == 0 {
        v
    } else {
        let prev = address_token(v.drop_last());
        if prev.len() < v.len() - 1 { prev } else if is_white(v.last()) || v.last() == ';' { prev } else { v }
    }
}

/// `t` without a leading `0x` or `0X`.
pub open spec fn strip_hex_prefix(t: Seq<char>) -> Seq<char> {
    if has_prefix(t, "0x"@) || has_prefix(t, "0X"@) { t.skip(2) } else { t }
}

/// What one symbol-map line gives: `None` when it is skipped (blank, a `#`
/// or `//` comment, or without `=`), `Some(None)` when its address is not
/// hexadecimal, else the address and the trimmed name before the `=`.
pub open spec fn symbol_entry(line: Seq<char>) -> Option<Option<(u32, Seq<char>)>> {
    let t = trimmed(line);
    if t.len() == 0 || t[0] == '#' || has_prefix(t, "//"@) {
        None
    } else {
        match first_index(t, '=') {
            None => None,
            Some(k) => {
                let hexs = strip_hex_prefix(address_token(trimmed(t.skip(k + 1))));
                match number_value(hexs, 16, 0x1_0000_0000) {
                    None => Some(None),
                    Some(v) => Some(Some((v as u32, trimmed(t.take(k))))),
                }
            },
        }
    }
}

/// The addresses of `s`.
pub open spec fn keys_of(s: Seq<(u32, Seq<char>)>) -> Seq<u32> {
    s.map_values(|p: (u32, Seq<char>)| p.0)
}

/// `s` with `(a, name)` added in address order, unless `a` is already present.
pub open spec fn add_symbol(s: Seq<(u32, Seq<char>)>, a: u32, name: Seq<char>) -> Seq<(u32, Seq<char>)> {
    if keys_of(s).contains(a) { s } else { s.insert(count_lt(keys_of(s), a) as int, (a, name)) }
}

/// The named starts from symbol-map lines whose address is one of `addrs`;
/// the first name for an address wins. An invalid line gives its 1-based number.
pub open spec fn symbol_lines(lines: Seq<Seq<char>>, addrs: Set<u32>) -> Result<Seq<(u32, Seq<char>)>, nat>
    decreases lines.len(),
{
    if lines.len() == 0 {
        Ok(seq![])
    } else {
        match symbol_lines(lines.drop_last(), addrs) {
            Err(e) => Err(e),
            Ok(acc) => match symbol_entry(lines.last()) {
                None => Ok(acc),
                Some(None) => Err(lines.len()),
                Some(Some((a, name))) => Ok(if addrs.contains(a) { add_symbol(acc, a, name) } else { acc }),
            },
        }
    }
}

/// The first `n` sweep spans added to `acc` under their sweep names.
pub open spec fn add_spans(acc: Seq<(u32, Seq<char>)>, spans: Seq<(u32, u32)>, n: nat) -> Seq<(u32, Seq<char>)>
    decreases n,
{
    if n == 0 { acc } else { add_symbol(add_spans(acc, spans, (n - 1) as nat), spans[n - 1].0, sub_name(spans[n - 1].0)) }
}

/// The addresses of the instructions.
pub open spec fn instruction_addresses(insts: Seq<DecodedInstruction>) -> Set<u32> {
    Set::new(|a: u32| exists|i: int| 0 <= i < insts.len() && #[trigger] insts[i].address == a)
}

/// Named function starts from a symbol map, then the sweep's starts, then
/// `entry` named `entry` when it is an instruction address; or the number of
/// the first invalid line.
pub open spec fn symbol_starts(text: Seq<char>, entry: u32, insts: Seq<DecodedInstruction>, limits: DiscoveryLimits) -> Result<Seq<(u32, Seq<char>)>, nat> {
    let addrs = instruction_addresses(insts);
    match symbol_lines(split_lines(text), addrs) {
        Err(e) => Err(e),
        Ok(acc) => {
            let spans = naive_spans(insts, entry, limits.max_funcs as nat, limits.max_instrs as nat);
            let acc2 = add_spans(acc, spans, spans.len());
            Ok(if addrs.contains(entry) { add_symbol(acc2, entry, "entry"@) } else { acc2 })
        },
    }
}

/// `a + b`, saturating at `u32::MAX`.
pub open spec fn sat_add32(a: u32, b: u32) -> u32 {
    if a + b > u32::MAX { u32::MAX } else { (a + b) as u32 }
}

/// The largest instruction address plus four (saturating), if any.
pub open spec fn max_end(insts: Seq<DecodedInstruction>) -> Option<u32>
    decreases insts.len(),
{
    if insts.len() == 0 {
        None
    } else {
        let e = sat_add32(insts.last().address, 4);
        match max_end(insts.drop_last()) {
            None => Some(e),
            Some(m) => Some(if e > m { e } else { m }),
        }
    }
}

/// Where the last function of a symbol-map discovery ends.
pub open spec fn image_end(insts: Seq<DecodedInstruction>, entry: u32) -> u32 {
    match max_end(insts) {
        Some(m) => m,
        None => sat_add32(entry, 4),
    }
}

/// Size of the `i`-th named function: up to the next start (or `end`),
/// saturating at zero, and at least 4.
pub open spec fn symbol_size(starts: Seq<(u32, Seq<char>)>, end: u32, i: int) -> u32 {
    let a = starts[i].0;
    let e = if i + 1 < starts.len() { starts[i + 1].0 } else { end };
    let d: u32 = if e >= a { (e - a) as u32 } else { 0 };
    if d > 4 { d } else { 4 }
}

/// The functions listed are the named starts with their sizes.
pub open spec fn lists_symbols(fs: Seq<FunctionInfo>, starts: Seq<(u32, Seq<char>)>, end: u32) -> bool {
    &&& fs.len() == starts.len()
    &&& forall|i: int| 0 <= i < fs.len() ==> discovered_as(#[trigger] fs[i], starts[i].0, starts[i].1, symbol_size(starts, end, i))
}

/// The plain-value view of a symbol table.
pub open spec fn table_model(v: Seq<(u32, String)>) -> Seq<(u32, Seq<char>)> {
    v.map_values(|p: (u32, String)| (p.0, p.1@))
}

/// Adds `(a, name)` to a symbol table kept sorted by address, unless `a` is present.
fn add_symbol_exec(acc: &mut Vec<(u32, String)>, a: u32, name: String)
    requires
        strictly_sorted(keys_of(table_model(old(acc)@))),
    ensures
        table_model(final(acc)@) == add_symbol(table_model(old(acc)@), a, name@),
        strictly_sorted(keys_of(table_model(final(acc)@))),
{
    let ghost s = table_model(acc@);
    let ghost ks = keys_of(s);
    let mut i: usize = 0;
    while i < acc.len() && acc[i].0 < a
        invariant
            s == table_model(acc@),
            ks == keys_of(s),
            strictly_sorted(ks),
            i <= acc@.len(),
            forall|j: int| 0 <= j < i ==> ks[j] < a,
        decreases acc@.len() - i,
    {
        assert(ks[i as int] == acc@[i as int].0);
        i = i + 1;
    }
    proof {
        assert forall|j: int| i <= j < ks.len() implies ks[j] >= a by {
            assert(ks[i as int] == acc@[i as int].0);
            if j > i {
                assert(ks[i as int] < ks[j]);
            }
        }
        crate::codegen::lemma_count_lt_split(ks, a, i as int);
    }
    if i < acc.len() && acc[i].0 == a {
        assert(ks[i as int] == a);
        assert(ks.contains(a));
    } else {
        proof {
            assert forall|j: int| 0 <= j < ks.len() implies ks[j] != a by {
                if j >= i {
                    assert(ks[i as int] == acc@[i as int].0);
                    if j > i {
                        assert(ks[i as int] < ks[j]);
                    }
                }
            }
            assert(!ks.contains(a));
        }
        let ghost nm = name@;
        acc.insert(i, (a, name));
        proof {
            let t = table_model(acc@);
            assert(t =~= s.insert(i as int, (a, nm)));
            let kt = keys_of(t);
            assert(kt =~= ks.insert(i as int, a));
            assert forall|x: int, y: int| 0 <= x < y < kt.len() implies kt[x] < kt[y] by {
                if y < i {
                } else if y == i {
                } else if x < i {
                    assert(kt[y] == ks[y - 1]);
                } else if x == i {
                    assert(kt[y] == ks[y - 1]);
                } else {
                    assert(kt[x] == ks[x - 1] && kt[y] == ks[y - 1]);
                }
            }
        }
    }
}

/// A `String` holding the characters `v[lo..hi]`.
fn chars_to_string(v: &Vec<char>, lo: usize, hi: usize) -> (r: String)
    requires
        lo <= hi <= v@.len(),
    ensures
        r@ == v@.subrange(lo as int, hi as int),
{
    let mut r = String::new();
    let mut i = lo;
    while i < hi
        invariant
            lo <= i <= hi <= v@.len(),
            r@ == v@.subrange(lo as int, i as int),
        decreases hi - i,
    {
        push_char(&mut r, v[i]);
        i = i + 1;
        assert(r@ =~= v@.subrange(lo as int, i as int));
    }
    r
}

/// Applies one symbol-map line to the table: `Err` when its address is not hexadecimal.
fn process_symbol_line(acc: &mut Vec<(u32, String)>, line: &Vec<char>, addrs: &HashSet<u32>) -> (r: Result<(), ()>)
    requires
        strictly_sorted(keys_of(table_model(old(acc)@))),
    ensures
        strictly_sorted(keys_of(table_model(final(acc)@))),
        match symbol_entry(line@) {
            None => r is Ok && final(acc)@ == old(acc)@,
            Some(None) => r is Err && line@.len() > 0,
            Some(Some((a, name))) => r is Ok && table_model(final(acc)@) == (if addrs@.contains(a) {
                add_symbol(table_model(old(acc)@), a, name)
            } else {
                table_model(old(acc)@)
            }),
        },
{
    broadcast use vstd::std_specs::hash::group_hash_axioms;
    if line.len() == 0 {
        assert(trimmed(line@) =~= line@);
        return Ok(());
    }
    let t = trim_range(line, 0, line.len());
    assert(line@.subrange(0, line@.len() as int) =~= line@);
    proof {
        reveal_strlit("//");
        reveal_strlit("0x");
        reveal_strlit("0X");
    }
    if t.len() == 0 || t[0] == '#' || (t.len() >= 2 && t[0] == '/' && t[1] == '/') {
        proof {
            if t@.len() >= 2 && t@[0] == '/' && t@[1] == '/' {
                assert(t@.take(2) =~= "//"@);
            }
        }
        return Ok(());
    }
    assert(!has_prefix(t@, "//"@)) by {
        if has_prefix(t@, "//"@) {
            assert(t@.take(2)[0] == '/' && t@.take(2)[1] == '/');
        }
    }
    let mut k: usize = 0;
    while k < t.len() && t[k] != '='
        invariant
            k <= t@.len(),
            first_index(t@.take(k as int), '=') is None,
        decreases t@.len() - k,
    {
        assert(t@.take(k + 1).drop_last() =~= t@.take(k as int));
        k = k + 1;
    }
    if k == t.len() {
        assert(t@.take(k as int) =~= t@);
        return Ok(());
    }
    proof {
        assert(t@.take(k + 1).drop_last() =~= t@.take(k as int));
        lemma_first_index_prefix(t@, k + 1);
    }
    let name_chars = trim_range(&t, 0, k);
    let value = trim_range(&t, k + 1, t.len());
    assert(t@.subrange(0, k as int) =~= t@.take(k as int));
    assert(t@.subrange(k + 1, t@.len() as int) =~= t@.skip(k + 1));
    let mut e: usize = 0;
    while e < value.len() && !is_whitespace(value[e]) && value[e] != ';'
        invariant
            e <= value@.len(),
            address_token(value@.take(e as int)) == value@.take(e as int),
        decreases value@.len() - e,
    {
        assert(value@.take(e + 1).drop_last() =~= value@.take(e as int));
        e = e + 1;
    }
    proof {
        lemma_address_token_stops(value@, e as int);
    }
    let start: usize = if e >= 2 && value[0] == '0' && (value[1] == 'x' || value[1] == 'X') { 2 } else { 0 };
    let mut hexs: Vec<char> = Vec::new();
    let mut j = start;
    while j < e
        invariant
            start <= j <= e <= value@.len(),
            hexs@ == value@.subrange(start as int, j as int),
        decreases e - j,
    {
        hexs.push(value[j]);
        j = j + 1;
        assert(hexs@ =~= value@.subrange(start as int, j as int));
    }
    proof {
        let tok = value@.take(e as int);
        if start == 2 {
            if value@[1] == 'x' {
                assert(tok.take(2) =~= "0x"@);
            } else {
                assert(tok.take(2) =~= "0X"@);
            }
            assert(hexs@ =~= tok.skip(2));
        } else {
            if has_prefix(tok, "0x"@) {
                assert(tok.take(2)[0] == '0' && tok.take(2)[1] == 'x');
            }
            if has_prefix(tok, "0X"@) {
                assert(tok.take(2)[0] == '0' && tok.take(2)[1] == 'X');
            }
            assert(hexs@ =~= tok);
        }
    }
    match parse_hex_u32(&hexs) {
        None => Err(()),
        Some(a) => {
            if addrs.contains(&a) {
                let name = chars_to_string(&name_chars, 0, name_chars.len());
                assert(name_chars@.subrange(0, name_chars@.len() as int) =~= name_chars@);
                add_symbol_exec(acc, a, name);
            }
            Ok(())
        },
    }
}

/// `first_index` of a prefix that ends in the first `c`.
proof fn lemma_first_index_prefix(s: Seq<char>, n: int)
    requires
        0 < n <= s.len(),
        first_index(s.take(n - 1), s[n - 1]) is None,
    ensures
        first_index(s, s[n - 1]) == Some(n - 1),
    decreases s.len(),
{
    if s.len() > n {
        assert(s.drop_last().take(n - 1) =~= s.take(n - 1));
        lemma_first_index_prefix(s.drop_last(), n);
    } else {
        assert(s.drop_last() =~= s.take(n - 1));
    }
}

/// The token of `v` is its first `e` characters when they hold no separator
/// and `v[e]` is one (or `e` is the length).
proof fn lemma_address_token_stops(v: Seq<char>, e: int)
    requires
        0 <= e <= v.len(),
        address_token(v.take(e)) == v.take(e),
        e < v.len() ==> (is_white(v[e]) || v[e] == ';'),
    ensures
        address_token(v) == v.take(e),
    decreases v.len(),
{
    if v.len() == e {
        assert(v.take(e) =~= v);
    } else if v.len() == e + 1 {
        assert(v.drop_last() =~= v.take(e));
    } else {
        assert(v.drop_last().take(e) =~= v.take(e));
        lemma_address_token_stops(v.drop_last(), e);
    }
}


/// Splitting a longer prefix of `s` keeps every complete line of a shorter one.
proof fn lemma_split_lines_extend(s: Seq<char>, p: int, q: int)
    requires
        0 <= p <= q <= s.len(),
    ensures
        split_lines(s.take(q)).len() >= split_lines(s.take(p)).len(),
        forall|i: int| 0 <= i < split_lines(s.take(p)).len() - 1 ==> #[trigger] split_lines(s.take(q))[i] == split_lines(s.take(p))[i],
    decreases q - p,
{
    crate::symbols::lemma_split_lines_nonempty(s.take(p));
    if q > p {
        lemma_split_lines_extend(s, p, q - 1);
        assert(s.take(q).drop_last() =~= s.take(q - 1));
        crate::symbols::lemma_split_lines_nonempty(s.take(q - 1));
    }
}

/// Once a prefix of the lines fails, all of them fail the same way.
proof fn lemma_symbol_lines_err_prefix(lines: Seq<Seq<char>>, k: int, addrs: Set<u32>)
    requires
        0 <= k <= lines.len(),
        symbol_lines(lines.take(k), addrs) is Err,
    ensures
        symbol_lines(lines, addrs) == symbol_lines(lines.take(k), addrs),
    decreases lines.len(),
{
    if lines.len() == k {
        assert(lines.take(k) =~= lines);
    } else {
        assert(lines.drop_last().take(k) =~= lines.take(k));
        lemma_symbol_lines_err_prefix(lines.drop_last(), k, addrs);
    }
}

/// The set of instruction addresses.
fn address_set(instructions: &[DecodedInstruction]) -> (r: HashSet<u32>)
    ensures
        r@ == instruction_addresses(instructions@),
{
    broadcast use vstd::std_specs::hash::group_hash_axioms;
    let mut set: HashSet<u32> = HashSet::new();
    let n = instructions.len();
    let mut i: usize = 0;
    while i < n
        invariant
            n == instructions@.len(),
            i <= n,
            set@ == instruction_addresses(instructions@.take(i as int)),
        decreases n - i,
    {
        let a = instructions[i].address;
        set.insert(a);
        proof {
            let t0 = instructions@.take(i as int);
            let t1 = instructions@.take(i + 1);
            assert forall|x: u32| #[trigger] set@.contains(x) <==> instruction_addresses(t1).contains(x) by {
                if set@.contains(x) && x != a {
                    let w = choose|j: int| 0 <= j < t0.len() && #[trigger] t0[j].address == x;
                    assert(t1[w].address == x);
                }
                if x == a {
                    assert(t1[i as int].address == a);
                }
                if instruction_addresses(t1).contains(x) && x != a {
                    let w = choose|j: int| 0 <= j < t1.len() && #[trigger] t1[j].address == x;
                    assert(t0[w].address == x);
                }
            }
            assert(set@ =~= instruction_addresses(t1));
        }
        i = i + 1;
    }
    assert(instructions@.take(n as int) =~= instructions@);
    set
}

/// The largest instruction address plus four (saturating), or `entry` plus four.
fn compute_image_end(instructions: &[DecodedInstruction], entry: u32) -> (r: u32)
    ensures
        r == image_end(instructions@, entry),
{
    let n = instructions.len();
    let mut best: Option<u32> = None;
    let mut i: usize = 0;
    while i < n
        invariant
            n == instructions@.len(),
            i <= n,
            best == max_end(instructions@.take(i as int)),
        decreases n - i,
    {
        assert(instructions@.take(i + 1).drop_last() =~= instructions@.take(i as int));
        let e = instructions[i].address.saturating_add(4);
        best = match best {
            None => Some(e),
            Some(m) => Some(if e > m { e } else { m }),
        };
        i = i + 1;
    }
    assert(instructions@.take(n as int) =~= instructions@);
    match best {
        Some(m) => m,
        None => entry.saturating_add(4),
    }
}

impl RecompilationPipeline {
    /// Finds functions from a `name=0xADDRESS` symbol map: lines are trimmed;
    /// blank lines, `#` and `//` comments and lines without `=` are skipped;
    /// the address is the hexadecimal token after `=` (up to whitespace or
    /// `;`, with an optional `0x`/`0X`); only addresses of decoded
    /// instructions count and the first name for an address wins. The
    /// sweep's functions and the entry point (named `entry`) fill in the
    /// addresses the map leaves out. Each function spans to the next start
    /// (or past the last instruction), at least 4 bytes.
    ///
    /// Fails with the 1-based number of the first line whose address is not hexadecimal.
    pub fn symbol_map_function_discovery(
        text: &str,
        entry: u32,
        instructions: &[DecodedInstruction],
        limits: DiscoveryLimits,
    ) -> (r: Result<GhidraAnalysis, PipelineError>)
        ensures
            match symbol_starts(text@, entry, instructions@, limits) {
                Err(line) => r == Err::<GhidraAnalysis, PipelineError>(PipelineError::InvalidAddress { line: line as usize }),
                Ok(starts) => r matches Ok(a) && lists_symbols(a.functions@, starts, image_end(instructions@, entry)),
            },
    {
        broadcast use vstd::std_specs::hash::group_hash_axioms;
        let addrs = address_set(instructions);
        let chars = crate::text::str_chars(text);
        let n = chars.len();
        let mut acc: Vec<(u32, String)> = Vec::new();
        let mut cur: Vec<char> = Vec::new();
        let mut li: usize = 0;
        let mut pos: usize = 0;
        proof {
            assert(chars@.take(0) =~= Seq::<char>::empty());
            assert(split_lines(chars@.take(0)) == seq![Seq::<char>::empty()]);
            assert(split_lines(chars@.take(0)).take(0) =~= Seq::<Seq<char>>::empty());
            assert(table_model(acc@) =~= Seq::<(u32, Seq<char>)>::empty());
            assert(keys_of(table_model(acc@)) =~= Seq::<u32>::empty());
        }
        while pos < n
            invariant
                n == chars@.len(),
                chars@ == text@,
                addrs@ == instruction_addresses(instructions@),
                pos <= n,
                li + cur@.len() <= pos,
                split_lines(chars@.take(pos as int)).len() == li + 1,
                split_lines(chars@.take(pos as int))[li as int] == cur@,
                symbol_lines(split_lines(chars@.take(pos as int)).take(li as int), addrs@) == Ok::<Seq<(u32, Seq<char>)>, nat>(table_model(acc@)),
                strictly_sorted(keys_of(table_model(acc@))),
            decreases n - pos,
        {
            let ghost ls = split_lines(chars@.take(pos as int));
            let ghost ls1 = split_lines(chars@.take(pos + 1));
            let c = chars[pos];
            assert(chars@.take(pos + 1).drop_last() =~= chars@.take(pos as int));
            if c == '\n' {
                let ghost before = table_model(acc@);
                match process_symbol_line(&mut acc, &cur, &addrs) {
                    Err(_) => {
                        proof {
                            assert(ls.drop_last() =~= ls.take(li as int));
                            assert(ls.take(li + 1) =~= ls);
                            assert(symbol_lines(ls, addrs@) == Err::<Seq<(u32, Seq<char>)>, nat>((li + 1) as nat));
                            assert(ls1 == ls.push(seq![]));
                            assert(chars@.take(n as int) =~= chars@);
                            lemma_split_lines_extend(chars@, pos + 1, n as int);
                            let full = split_lines(chars@);
                            assert(full.take(li + 1) =~= ls);
                            lemma_symbol_lines_err_prefix(full, li + 1, addrs@);
                        }
                        return Err(PipelineError::InvalidAddress { line: li + 1 });
                    },
                    Ok(_) => {},
                }
                proof {
                    assert(ls1 == ls.push(seq![]));
                    assert(ls1.take(li + 1) =~= ls);
                    assert(ls.drop_last() =~= ls.take(li as int));
                }
                cur = Vec::new();
                li = li + 1;
            } else {
                proof {
                    assert(ls1 == ls.update(li as int, ls[li as int].push(c)));
                    assert(ls1.take(li as int) =~= ls.take(li as int));
                }
                cur.push(c);
            }
            pos = pos + 1;
        }
        let ghost ls = split_lines(chars@);
        assert(chars@.take(n as int) =~= chars@);
        match process_symbol_line(&mut acc, &cur, &addrs) {
            Err(_) => {
                proof {
                    assert(ls.drop_last() =~= ls.take(li as int));
                }
                return Err(PipelineError::InvalidAddress { line: li + 1 });
            },
            Ok(_) => {},
        }
        proof {
            assert(ls.drop_last() =~= ls.take(li as int));
        }
        let naive = Self::naive_function_discovery_bounded(entry, instructions, limits);
        let ghost spans = naive_spans(instructions@, entry, limits.max_funcs as nat, limits.max_instrs as nat);
        let ghost acc0 = table_model(acc@);
        let nf = naive.functions.len();
        let mut k: usize = 0;
        while k < nf
            invariant
                nf == naive.functions@.len(),
                lists_sweep(naive.functions@, spans),
                k <= nf,
                table_model(acc@) == add_spans(acc0, spans, k as nat),
                strictly_sorted(keys_of(table_model(acc@))),
            decreases nf - k,
        {
            let f = &naive.functions[k];
            assert(discovered_as(naive.functions@[k as int], spans[k as int].0, sub_name(spans[k as int].0), spans[k as int].1));
            add_symbol_exec(&mut acc, f.address, f.name.clone());
            k = k + 1;
        }
        if addrs.contains(&entry) {
            proof {
                reveal_strlit("entry");
            }
            add_symbol_exec(&mut acc, entry, "entry".to_string());
        }
        let ghost starts = table_model(acc@);
        let end = compute_image_end(instructions, entry);
        let mut functions: Vec<FunctionInfo> = Vec::new();
        let m = acc.len();
        let mut i: usize = 0;
        while i < m
            invariant
                m == acc@.len(),
                starts == table_model(acc@),
                end == image_end(instructions@, entry),
                i <= m,
                functions@.len() == i,
                forall|t: int| 0 <= t < i ==> discovered_as(#[trigger] functions@[t], starts[t].0, starts[t].1, symbol_size(starts, end, t)),
            decreases m - i,
        {
            let a = acc[i].0;
            let e = if i + 1 < m { acc[i + 1].0 } else { end };
            let d = e.saturating_sub(a);
            let size = if d > 4 { d } else { 4 };
            let ghost before = functions@;
            functions.push(make_function(a, acc[i].1.clone(), size));
            proof {
                assert(starts[i as int] == (a, acc@[i as int].1@));
                if i + 1 < m {
                    assert(starts[i + 1].0 == acc@[i + 1].0);
                }
                assert forall|t: int| 0 <= t < i + 1 implies discovered_as(#[trigger] functions@[t], starts[t].0, starts[t].1, symbol_size(starts, end, t)) by {
                    if t < i {
                        assert(functions@[t] == before[t]);
                    }
                }
            }
            i = i + 1;
        }
        Ok(GhidraAnalysis { functions })
    }
}


// ---------------------------------------------------------------- module text

/// The code generated for the first `i` functions: each one with at least
/// one instruction becomes a Rust function followed by a blank line; the
/// others produce nothing.
pub open spec fn generated_functions(fs: Seq<FunctionInfo>, insts: Seq<DecodedInstruction>, i: nat) -> Seq<char>
    decreases i,
{
    if i == 0 {
        seq![]
    } else {
        let f = fs[i - 1];
        let sel = select_function(insts, f.address, f.size);
        generated_functions(fs, insts, (i - 1) as nat)
            + if sel.len() == 0 { seq![] } else { gen_function(0, f.name@, f.address, sel) + "\n"@ }
    }
}

/// How many of the first `i` functions have at least one instruction.
pub open spec fn generated_count(fs: Seq<FunctionInfo>, insts: Seq<DecodedInstruction>, i: nat) -> nat
    decreases i,
{
    if i == 0 {
        0
    } else {
        let f = fs[i - 1];
        generated_count(fs, insts, (i - 1) as nat) + if select_function(insts, f.address, f.size).len() == 0 { 0nat } else { 1nat }
    }
}

/// Dispatcher arms for the first `i` functions: each address maps to its generated function.
pub open spec fn dispatch_arms(fs: Seq<FunctionInfo>, i: nat) -> Seq<char>
    decreases i,
{
    if i == 0 {
        seq![]
    } else {
        let f = fs[i - 1];
        dispatch_arms(fs, (i - 1) as nat) + "        0x"@ + hex8(f.address) + "u32 => "@ + function_name(f.name@, f.address)
            + "(ctx, memory),\n"@
    }
}

/// The head of a recompiled module, naming the entry point.
pub open spec fn module_prelude(entry: u32) -> Seq<char> {
    "//! Recompiled GameCube game functions\n"@ + "//! Generated by GCRecomp\n"@
        + "#![allow(warnings, clippy::all, clippy::pedantic, clippy::nursery)]\n\n"@
        + "use gcrecomp_core::runtime::context::CpuContext;\n"@ + "use gcrecomp_core::runtime::memory::MemoryManager;\n"@
        + "use anyhow::Result;\n\n"@
        + "/// Original DOL entry-point address (call via `call_function_by_address`).\npub const ENTRY_POINT: u32 = 0x"@
        + hex8(entry) + ";\n\n"@
}

/// The opening of the address dispatcher of a recompiled module.
pub open spec fn dispatcher_head() -> Seq<char> {
    "\n/// Function dispatcher - calls recompiled functions by address\n"@
        + "/// This is generated automatically to handle indirect function calls\n"@
        + "pub fn call_function_by_address(\n"@ + "    address: u32,\n"@ + "    ctx: &mut CpuContext,\n"@
        + "    memory: &mut MemoryManager,\n"@ + ") -> Result<Option<u32>> {\n"@ + "    // Static function address mapping\n"@
        + "    match address {\n"@
}

/// The close of the dispatcher: unknown addresses return `Ok(None)`.
pub open spec fn dispatcher_tail() -> Seq<char> {
    "        _ => Ok(None),\n"@ + "    }\n"@ + "}\n\n"@
}

/// The embedded memory image and the loader that copies it into RAM.
pub open spec fn image_loader() -> Seq<char> {
    "/// Embedded initial memory image (DOL sections).\n"@
        + "pub static GAME_IMAGE: &[u8] = include_bytes!(\"game_image.bin\");\n\n"@
        + "/// Load the DOL's sections into RAM at their virtual addresses.\n"@ + "pub fn load_image(memory: &mut MemoryManager) {\n"@
        + "    let img = GAME_IMAGE;\n"@ + "    let mut p = 0usize;\n"@ + "    while p + 8 <= img.len() {\n"@
        + "        let addr = u32::from_le_bytes([img[p], img[p + 1], img[p + 2], img[p + 3]]);\n"@
        + "        let len = u32::from_le_bytes([img[p + 4], img[p + 5], img[p + 6], img[p + 7]]) as usize;\n"@
        + "        p += 8;\n"@ + "        if p + len > img.len() { break; }\n"@
        + "        let _ = memory.load_section(addr, &img[p..p + len]);\n"@ + "        p += len;\n"@ + "    }\n"@ + "}\n"@
}

/// The whole recompiled module for the functions `fs` over `insts`.
pub open spec fn recompiled_module(entry: u32, fs: Seq<FunctionInfo>, insts: Seq<DecodedInstruction>) -> Seq<char> {
    module_prelude(entry) + generated_functions(fs, insts, fs.len()) + dispatcher_head() + dispatch_arms(fs, fs.len())
        + dispatcher_tail() + image_loader()
}

/// The head of the module the staged pipeline generates.
pub open spec fn stage_prelude() -> Seq<char> {
    "//! Recompiled GameCube game functions\n"@ + "//! Generated by GCRecomp\n\n"@
        + "use gcrecomp_core::runtime::context::CpuContext;\n"@ + "use gcrecomp_core::runtime::memory::MemoryManager;\n"@
        + "use anyhow::Result;\n\n"@
}

/// The opening of the staged pipeline's dispatcher.
pub open spec fn stage_dispatcher_head() -> Seq<char> {
    "\npub fn call_function_by_address(\n    address: u32,\n    ctx: &mut CpuContext,\n    memory: &mut MemoryManager,\n) -> Result<Option<u32>> {\n    match address {\n"@
}

/// The close of the staged pipeline's dispatcher.
pub open spec fn stage_dispatcher_tail() -> Seq<char> {
    "        _ => Ok(None),\n    }\n}\n"@
}

/// The module the staged pipeline generates for `fs` over `insts`.
pub open spec fn stage_module(fs: Seq<FunctionInfo>, insts: Seq<DecodedInstruction>) -> Seq<char> {
    stage_prelude() + generated_functions(fs, insts, fs.len()) + stage_dispatcher_head() + dispatch_arms(fs, fs.len())
        + stage_dispatcher_tail()
}

/// Function metadata for code generation from a discovered function.
fn metadata_of(f: &FunctionInfo) -> (m: FunctionMetadata)
    ensures
        m.name@ == f.name@,
        m.address == f.address,
        m.size == f.size,
{
    let mut parameters: Vec<ParameterInfo> = Vec::new();
    let mut i: usize = 0;
    while i < f.parameters.len()
        invariant
            i <= f.parameters@.len(),
        decreases f.parameters@.len() - i,
    {
        let p = &f.parameters[i];
        parameters.push(ParameterInfo { name: p.name.clone(), type_info: TypeInfo::Unknown, register: None, stack_offset: p.stack_offset });
        i = i + 1;
    }
    let mut local_variables: Vec<VariableInfo> = Vec::new();
    let mut j: usize = 0;
    while j < f.local_variables.len()
        invariant
            j <= f.local_variables@.len(),
        decreases f.local_variables@.len() - j,
    {
        let v = &f.local_variables[j];
        local_variables.push(VariableInfo {
            name: v.name.clone(),
            type_info: TypeInfo::Unknown,
            stack_offset: v.stack_offset,
            scope_start: 0,
            scope_end: 0,
        });
        j = j + 1;
    }
    FunctionMetadata {
        address: f.address,
        name: f.name.clone(),
        size: f.size,
        calling_convention: f.calling_convention.clone(),
        parameters,
        return_type: None,
        local_variables,
        basic_blocks: Vec::new(),
    }
}

/// Appends the code of every function of `fs` with at least one instruction;
/// returns how many were generated.
#[verifier::spinoff_prover]
#[verifier::rlimit(40)]
fn emit_functions(code: &mut String, codegen: &mut CodeGenerator, fs: &Vec<FunctionInfo>, insts: &[DecodedInstruction]) -> (generated: usize)
    requires
        old(codegen).wf(),
        old(codegen).level() == 0,
    ensures
        final(codegen).wf(),
        final(codegen).level() == 0,
        final(code)@ == old(code)@ + generated_functions(fs@, insts@, fs@.len()),
        generated as nat == generated_count(fs@, insts@, fs@.len()),
{
    let ghost start = code@;
    let n = fs.len();
    let mut generated: usize = 0;
    let mut i: usize = 0;
    while i < n
        invariant
            n == fs@.len(),
            i <= n,
            codegen.wf(),
            codegen.level() == 0,
            code@ == start + generated_functions(fs@, insts@, i as nat),
            generated as nat == generated_count(fs@, insts@, i as nat),
            generated <= i,
        decreases n - i,
    {
        let f = &fs[i];
        let sel = RecompilationPipeline::map_instructions_to_function(f, insts);
        let ghost want = select_function(insts@, f.address, f.size);
        if sel.len() > 0 {
            let meta = metadata_of(f);
            match codegen.generate_function(&meta, sel.as_slice()) {
                Ok(text) => {
                    proof {
                        crate::codegen::spec::lemma_gen_function_congruent(0, f.name@, f.address, sel@, want);
                    }
                    push_string(code, &text);
                    push_str(code, "\n");
                    generated = generated + 1;
                },
                Err(e) => {
                    push_str(code, "// Stub for function ");
                    push_string(code, &f.name);
                    push_str(code, " (generation failed: ");
                    push_str(code, e.message);
                    push_str(code, ")\n");
                },
            }
        }
        proof {
            assert(code@ =~= start + generated_functions(fs@, insts@, (i + 1) as nat));
        }
        i = i + 1;
    }
    generated
}

/// Appends one dispatcher arm per function of `fs`.
fn emit_dispatch_arms(code: &mut String, codegen: &CodeGenerator, fs: &Vec<FunctionInfo>)
    ensures
        final(code)@ == old(code)@ + dispatch_arms(fs@, fs@.len()),
{
    let ghost start = code@;
    let n = fs.len();
    let mut i: usize = 0;
    while i < n
        invariant
            n == fs@.len(),
            i <= n,
            code@ == start + dispatch_arms(fs@, i as nat),
        decreases n - i,
    {
        let f = &fs[i];
        push_str(code, "        0x");
        push_hex8(code, f.address);
        push_str(code, "u32 => ");
        let name = codegen.function_name_text(f.name.as_str(), f.address);
        push_string(code, &name);
        push_str(code, "(ctx, memory),\n");
        assert(code@ =~= start + dispatch_arms(fs@, (i + 1) as nat));
        i = i + 1;
    }
}

/// Counts collected while running the pipeline.
#[derive(Clone, Copy, Debug, PartialEq, Eq, Structural)]
pub struct PipelineStats {
    pub total_functions: usize,
    pub successful_functions: usize,
    pub failed_functions: usize,
    pub total_instructions: usize,
}

impl Default for PipelineStats {
    fn default() -> (r: Self)
        ensures
            r.total_functions == 0,
            r.successful_functions == 0,
            r.failed_functions == 0,
            r.total_instructions == 0,
    {
        PipelineStats { total_functions: 0, successful_functions: 0, failed_functions: 0, total_instructions: 0 }
    }
}

/// A recompiled program: the decoded instructions, the functions found, the
/// generated module, the memory image and the counts.
pub struct RecompiledProgram {
    pub instructions: Vec<DecodedInstruction>,
    pub analysis: GhidraAnalysis,
    pub code: String,
    pub image: Vec<u8>,
    pub stats: PipelineStats,
}

/// What a discovery pass gives for `insts`: the symbol map's functions when
/// one is given (or its first invalid line), else the sweep's.
pub open spec fn discovery(symbol_map: Option<Seq<char>>, entry: u32, insts: Seq<DecodedInstruction>, limits: DiscoveryLimits, fs: Seq<FunctionInfo>) -> Result<(), nat> {
    match symbol_map {
        Some(text) => match symbol_starts(text, entry, insts, limits) {
            Err(line) => Err(line),
            Ok(starts) => if lists_symbols(fs, starts, image_end(insts, entry)) { Ok(()) } else { Err(0) },
        },
        None => if lists_sweep(fs, naive_spans(insts, entry, limits.max_funcs as nat, limits.max_instrs as nat)) { Ok(()) } else { Err(0) },
    }
}

/// The symbol map's text as plain characters.
pub open spec fn map_text(symbol_map: Option<&str>) -> Option<Seq<char>> {
    match symbol_map {
        Some(t) => Some(t@),
        None => None,
    }
}

/// Appends [`module_prelude`].
fn push_module_prelude(code: &mut String, entry: u32)
    ensures
        final(code)@ == old(code)@ + module_prelude(entry),
{
    let ghost start = code@;
    push_str(code, "//! Recompiled GameCube game functions\n");
    push_str(code, "//! Generated by GCRecomp\n");
    push_str(code, "#![allow(warnings, clippy::all, clippy::pedantic, clippy::nursery)]\n\n");
    push_str(code, "use gcrecomp_core::runtime::context::CpuContext;\n");
    push_str(code, "use gcrecomp_core::runtime::memory::MemoryManager;\n");
    push_str(code, "use anyhow::Result;\n\n");
    push_str(code, "/// Original DOL entry-point address (call via `call_function_by_address`).\npub const ENTRY_POINT: u32 = 0x");
    push_hex8(code, entry);
    push_str(code, ";\n\n");
    assert(code@ =~= start + module_prelude(entry));
}

/// Appends [`dispatcher_head`].
fn push_dispatcher_head(code: &mut String)
    ensures
        final(code)@ == old(code)@ + dispatcher_head(),
{
    let ghost start = code@;
    push_str(code, "\n/// Function dispatcher - calls recompiled functions by address\n");
    push_str(code, "/// This is generated automatically to handle indirect function calls\n");
    push_str(code, "pub fn call_function_by_address(\n");
    push_str(code, "    address: u32,\n");
    push_str(code, "    ctx: &mut CpuContext,\n");
    push_str(code, "    memory: &mut MemoryManager,\n");
    push_str(code, ") -> Result<Option<u32>> {\n");
    push_str(code, "    // Static function address mapping\n");
    push_str(code, "    match address {\n");
    assert(code@ =~= start + dispatcher_head());
}

/// Appends [`dispatcher_tail`].
fn push_dispatcher_tail(code: &mut String)
    ensures
        final(code)@ == old(code)@ + dispatcher_tail(),
{
    let ghost start = code@;
    push_str(code, "        _ => Ok(None),\n");
    push_str(code, "    }\n");
    push_str(code, "}\n\n");
    assert(code@ =~= start + dispatcher_tail());
}

/// Appends [`image_loader`].
fn push_image_loader(code: &mut String)
    ensures
        final(code)@ == old(code)@ + image_loader(),
{
    let ghost start = code@;
    push_str(code, "/// Embedded initial memory image (DOL sections).\n");
    push_str(code, "pub static GAME_IMAGE: &[u8] = include_bytes!(\"game_image.bin\");\n\n");
    push_str(code, "/// Load the DOL's sections into RAM at their virtual addresses.\n");
    push_str(code, "pub fn load_image(memory: &mut MemoryManager) {\n");
    push_str(code, "    let img = GAME_IMAGE;\n");
    push_str(code, "    let mut p = 0usize;\n");
    push_str(code, "    while p + 8 <= img.len() {\n");
    push_str(code, "        let addr = u32::from_le_bytes([img[p], img[p + 1], img[p + 2], img[p + 3]]);\n");
    push_str(code, "        let len = u32::from_le_bytes([img[p + 4], img[p + 5], img[p + 6], img[p + 7]]) as usize;\n");
    push_str(code, "        p += 8;\n");
    push_str(code, "        if p + len > img.len() { break; }\n");
    push_str(code, "        let _ = memory.load_section(addr, &img[p..p + len]);\n");
    push_str(code, "        p += len;\n");
    push_str(code, "    }\n");
    push_str(code, "}\n");
    assert(code@ =~= start + image_loader());
}

/// The recompiled module for `fs` over `insts`, and how many functions it generates.
fn build_module(entry: u32, fs: &Vec<FunctionInfo>, insts: &[DecodedInstruction]) -> (r: (String, usize))
    ensures
        r.0@ == recompiled_module(entry, fs@, insts@),
        r.1 as nat == generated_count(fs@, insts@, fs@.len()),
        r.1 <= fs@.len(),
{
    let mut codegen = CodeGenerator::new();
    let mut code = String::new();
    push_module_prelude(&mut code, entry);
    let generated = emit_functions(&mut code, &mut codegen, fs, insts);
    push_dispatcher_head(&mut code);
    emit_dispatch_arms(&mut code, &codegen, fs);
    push_dispatcher_tail(&mut code);
    push_image_loader(&mut code);
    proof {
        assert(code@ =~= recompiled_module(entry, fs@, insts@));
        lemma_generated_count_bound(fs@, insts@, fs@.len());
    }
    (code, generated)
}

/// At most `i` of the first `i` functions are generated.
proof fn lemma_generated_count_bound(fs: Seq<FunctionInfo>, insts: Seq<DecodedInstruction>, i: nat)
    ensures
        generated_count(fs, insts, i) <= i,
    decreases i,
{
    if i > 0 {
        lemma_generated_count_bound(fs, insts, (i - 1) as nat);
    }
}

impl RecompilationPipeline {
    /// Recompiles a DOL: decodes its text sections, finds functions (from the
    /// symbol map when given, else by a linear sweep), and generates the
    /// module: a prelude naming the entry point, each function that has
    /// instructions, an address dispatcher, and a loader for the memory image
    /// (returned as `image`).
    ///
    /// Fails exactly when the symbol map has a line whose address is not
    /// hexadecimal, naming the first such line.
    pub fn recompile_with_symbol_map(dol: &DolFile, symbol_map: Option<&str>, limits: DiscoveryLimits) -> (r: Result<RecompiledProgram, PipelineError>)
        ensures
            match r {
                Ok(p) => {
                    &&& decoded_from(p.instructions@, decodable(program_words(*dol)))
                    &&& discovery(map_text(symbol_map), dol.entry_point, p.instructions@, limits, p.analysis.functions@) == Ok::<(), nat>(())
                    &&& p.code@ == recompiled_module(dol.entry_point, p.analysis.functions@, p.instructions@)
                    &&& p.image@ == image_bytes(all_sections(*dol))
                    &&& p.stats.total_functions == p.analysis.functions@.len()
                    &&& p.stats.successful_functions == generated_count(p.analysis.functions@, p.instructions@, p.analysis.functions@.len())
                    &&& p.stats.successful_functions + p.stats.failed_functions == p.stats.total_functions
                    &&& p.stats.total_instructions == p.instructions@.len()
                },
                Err(e) => exists|insts: Seq<DecodedInstruction>| {
                    &&& decoded_from(insts, decodable(program_words(*dol)))
                    &&& symbol_map matches Some(t)
                    &&& symbol_starts(t@, dol.entry_point, insts, limits) matches Err(line)
                    &&& e == PipelineError::InvalidAddress { line: line as usize }
                },
            },
    {
        let instructions = match Self::decode_all_instructions(dol) {
            Ok(v) => v,
            Err(e) => { return Err(e); },
        };
        let analysis = match symbol_map {
            Some(text) => match Self::symbol_map_function_discovery(text, dol.entry_point, instructions.as_slice(), limits) {
                Ok(a) => a,
                Err(e) => {
                    assert(decoded_from(instructions@, decodable(program_words(*dol))));
                    return Err(e);
                },
            },
            None => Self::naive_function_discovery_bounded(dol.entry_point, instructions.as_slice(), limits),
        };
        let (code, generated) = build_module(dol.entry_point, &analysis.functions, instructions.as_slice());
        let image = Self::memory_image(dol);
        let total = analysis.functions.len();
        let stats = PipelineStats {
            total_functions: total,
            successful_functions: generated,
            failed_functions: total - generated,
            total_instructions: instructions.len(),
        };
        Ok(RecompiledProgram { instructions, analysis, code, image, stats })
    }
}


impl RecompilationPipeline {
    /// [`Self::recompile_with_symbol_map`] without a symbol map: functions come from the sweep.
    pub fn recompile(dol: &DolFile, limits: DiscoveryLimits) -> (r: Result<RecompiledProgram, PipelineError>)
        ensures
            r matches Ok(p) && {
                &&& decoded_from(p.instructions@, decodable(program_words(*dol)))
                &&& lists_sweep(p.analysis.functions@, naive_spans(p.instructions@, dol.entry_point, limits.max_funcs as nat, limits.max_instrs as nat))
                &&& p.code@ == recompiled_module(dol.entry_point, p.analysis.functions@, p.instructions@)
                &&& p.image@ == image_bytes(all_sections(*dol))
                &&& p.stats.total_functions == p.analysis.functions@.len()
                &&& p.stats.successful_functions == generated_count(p.analysis.functions@, p.instructions@, p.analysis.functions@.len())
                &&& p.stats.successful_functions + p.stats.failed_functions == p.stats.total_functions
                &&& p.stats.total_instructions == p.instructions@.len()
            },
    {
        Self::recompile_with_symbol_map(dol, None, limits)
    }

    /// Decodes a DOL and finds its functions (from the symbol map when given,
    /// else by a linear sweep), without generating code.
    ///
    /// Fails exactly when the symbol map has a line whose address is not hexadecimal.
    pub fn analyze_with_symbol_map(dol: &DolFile, symbol_map: Option<&str>, limits: DiscoveryLimits) -> (r: Result<(Vec<DecodedInstruction>, GhidraAnalysis), PipelineError>)
        ensures
            match r {
                Ok((insts, a)) => decoded_from(insts@, decodable(program_words(*dol)))
                    && discovery(map_text(symbol_map), dol.entry_point, insts@, limits, a.functions@) == Ok::<(), nat>(()),
                Err(e) => exists|insts: Seq<DecodedInstruction>| {
                    &&& decoded_from(insts, decodable(program_words(*dol)))
                    &&& symbol_map matches Some(t)
                    &&& symbol_starts(t@, dol.entry_point, insts, limits) matches Err(line)
                    &&& e == PipelineError::InvalidAddress { line: line as usize }
                },
            },
    {
        let instructions = match Self::decode_all_instructions(dol) {
            Ok(v) => v,
            Err(e) => { return Err(e); },
        };
        let analysis = match symbol_map {
            Some(text) => match Self::symbol_map_function_discovery(text, dol.entry_point, instructions.as_slice(), limits) {
                Ok(a) => a,
                Err(e) => {
                    assert(decoded_from(instructions@, decodable(program_words(*dol))));
                    return Err(e);
                },
            },
            None => Self::naive_function_discovery_bounded(dol.entry_point, instructions.as_slice(), limits),
        };
        Ok((instructions, analysis))
    }

    /// [`Self::analyze_with_symbol_map`] without a symbol map.
    pub fn analyze(dol: &DolFile, limits: DiscoveryLimits) -> (r: Result<(Vec<DecodedInstruction>, GhidraAnalysis), PipelineError>)
        ensures
            r matches Ok((insts, a)) && decoded_from(insts@, decodable(program_words(*dol)))
                && lists_sweep(a.functions@, naive_spans(insts@, dol.entry_point, limits.max_funcs as nat, limits.max_instrs as nat)),
    {
        Self::analyze_with_symbol_map(dol, None, limits)
    }
}

// ---------------------------------------------------------------- staged pipeline

/// State carried from one pipeline stage to the next.
pub struct PipelineContext {
    pub dol_file: Option<DolFile>,
    pub ghidra_analysis: Option<GhidraAnalysis>,
    pub instructions: Option<Vec<DecodedInstruction>>,
    pub rust_code: Option<String>,
    pub stats: PipelineStats,
}

impl PipelineContext {
    /// An empty context: nothing loaded, all counts zero.
    pub fn new() -> (c: Self)
        ensures
            c.dol_file is None,
            c.ghidra_analysis is None,
            c.instructions is None,
            c.rust_code is None,
            c.stats == (PipelineStats { total_functions: 0, successful_functions: 0, failed_functions: 0, total_instructions: 0 }),
    {
        PipelineContext {
            dol_file: None,
            ghidra_analysis: None,
            instructions: None,
            rust_code: None,
            stats: PipelineStats::default(),
        }
    }
}

impl Default for PipelineContext {
    fn default() -> (c: Self)
        ensures
            c.dol_file is None,
            c.ghidra_analysis is None,
            c.instructions is None,
            c.rust_code is None,
            c.stats == (PipelineStats { total_functions: 0, successful_functions: 0, failed_functions: 0, total_instructions: 0 }),
    {
        PipelineContext::new()
    }
}

/// Appends [`stage_prelude`].
fn push_stage_prelude(code: &mut String)
    ensures
        final(code)@ == old(code)@ + stage_prelude(),
{
    let ghost start = code@;
    push_str(code, "//! Recompiled GameCube game functions\n");
    push_str(code, "//! Generated by GCRecomp\n\n");
    push_str(code, "use gcrecomp_core::runtime::context::CpuContext;\n");
    push_str(code, "use gcrecomp_core::runtime::memory::MemoryManager;\n");
    push_str(code, "use anyhow::Result;\n\n");
    assert(code@ =~= start + stage_prelude());
}

impl RecompilationPipeline {
    /// Stage: stores the result of an external function analysis of the
    /// loaded DOL. Fails when no DOL is loaded, or with the analysis's message.
    pub fn stage_analyze(ctx: &mut PipelineContext, analysis: Result<GhidraAnalysis, String>) -> (r: Result<(), PipelineError>)
        ensures
            match old(ctx).dol_file {
                None => r == Err::<(), PipelineError>(PipelineError::NoDolLoaded) && *final(ctx) == *old(ctx),
                Some(_) => match analysis {
                    Err(m) => r == Err::<(), PipelineError>(PipelineError::AnalysisFailed(m)) && *final(ctx) == *old(ctx),
                    Ok(a) => r is Ok && *final(ctx) == (PipelineContext { ghidra_analysis: Some(a), ..*old(ctx) }),
                },
            },
    {
        if ctx.dol_file.is_none() {
            return Err(PipelineError::NoDolLoaded);
        }
        match analysis {
            Err(m) => Err(PipelineError::AnalysisFailed(m)),
            Ok(a) => {
                ctx.ghidra_analysis = Some(a);
                Ok(())
            },
        }
    }

    /// Stage: decodes the loaded DOL's instructions and counts them.
    /// Fails when no DOL is loaded.
    pub fn stage_decode(ctx: &mut PipelineContext) -> (r: Result<(), PipelineError>)
        ensures
            match old(ctx).dol_file {
                None => r == Err::<(), PipelineError>(PipelineError::NoDolLoaded) && *final(ctx) == *old(ctx),
                Some(d) => r is Ok && (final(ctx).instructions matches Some(v) && {
                    &&& decoded_from(v@, decodable(program_words(d)))
                    &&& final(ctx).stats == (PipelineStats { total_instructions: v@.len() as usize, ..old(ctx).stats })
                    &&& final(ctx).dol_file == old(ctx).dol_file
                    &&& final(ctx).ghidra_analysis == old(ctx).ghidra_analysis
                    &&& final(ctx).rust_code == old(ctx).rust_code
                }),
            },
    {
        let decoded = match &ctx.dol_file {
            None => { return Err(PipelineError::NoDolLoaded); },
            Some(d) => Self::decode_all_instructions(d),
        };
        match decoded {
            Err(e) => Err(e),
            Ok(v) => {
                ctx.stats.total_instructions = v.len();
                ctx.instructions = Some(v);
                Ok(())
            },
        }
    }

    /// Stage: type inference, which has nothing to record yet.
    pub fn stage_infer_types(ctx: &mut PipelineContext) -> (r: Result<(), PipelineError>)
        ensures
            r is Ok,
            *final(ctx) == *old(ctx),
    {
        Ok(())
    }

    /// Stage: generates the module for the analysis's functions over the
    /// decoded instructions and records the counts. Fails when there is no
    /// analysis, else when there are no decoded instructions.
    pub fn stage_generate_code(ctx: &mut PipelineContext) -> (r: Result<(), PipelineError>)
        ensures
            match (old(ctx).ghidra_analysis, old(ctx).instructions) {
                (None, _) => r == Err::<(), PipelineError>(PipelineError::NoAnalysis) && *final(ctx) == *old(ctx),
                (Some(_), None) => r == Err::<(), PipelineError>(PipelineError::NoInstructions) && *final(ctx) == *old(ctx),
                (Some(a), Some(v)) => r is Ok && (final(ctx).rust_code matches Some(code) && {
                    let fs = a.functions@;
                    let n = generated_count(fs, v@, fs.len());
                    &&& code@ == stage_module(fs, v@)
                    &&& final(ctx).stats == (PipelineStats {
                        total_functions: fs.len() as usize,
                        successful_functions: n as usize,
                        failed_functions: (fs.len() - n) as usize,
                        ..old(ctx).stats
                    })
                    &&& final(ctx).dol_file == old(ctx).dol_file
                    &&& final(ctx).ghidra_analysis == old(ctx).ghidra_analysis
                    &&& final(ctx).instructions == old(ctx).instructions
                }),
            },
    {
        if ctx.ghidra_analysis.is_none() {
            return Err(PipelineError::NoAnalysis);
        }
        if ctx.instructions.is_none() {
            return Err(PipelineError::NoInstructions);
        }
        let (code, total, generated) = match (&ctx.ghidra_analysis, &ctx.instructions) {
            (Some(a), Some(v)) => {
                let mut codegen = CodeGenerator::new();
                let mut code = String::new();
                push_stage_prelude(&mut code);
                let generated = emit_functions(&mut code, &mut codegen, &a.functions, v.as_slice());
                push_str(&mut code, "\npub fn call_function_by_address(\n    address: u32,\n    ctx: &mut CpuContext,\n    memory: &mut MemoryManager,\n) -> Result<Option<u32>> {\n    match address {\n");
                emit_dispatch_arms(&mut code, &codegen, &a.functions);
                push_str(&mut code, "        _ => Ok(None),\n    }\n}\n");
                proof {
                    assert(code@ =~= stage_module(a.functions@, v@));
                    lemma_generated_count_bound(a.functions@, v@, a.functions@.len());
                }
                (code, a.functions.len(), generated)
            },
            _ => { return Err(PipelineError::NoAnalysis); },
        };
        ctx.stats.total_functions = total;
        ctx.stats.successful_functions = generated;
        ctx.stats.failed_functions = total - generated;
        ctx.rust_code = Some(code);
        Ok(())
    }
}


// ---------------------------------------------------------------- laws

proof fn lemma_sweep_leaders_sorted(sc: Seq<(u32, u32)>, lo: u32, hi: u32, i: nat)
    requires
        i <= sc.len(),
    ensures
        strictly_sorted(sweep_leaders(sc, lo, hi, i)),
    decreases i,
{
    if i > 0 {
        lemma_sweep_leaders_sorted(sc, lo, hi, (i - 1) as nat);
        let prev = sweep_leaders(sc, lo, hi, (i - 1) as nat);
        let (a, raw) = sc[i - 1];
        let after = a.wrapping_add(4);
        lemma_insert_sorted_sorted(prev, after);
        let s1 = if raw == BLR && in_range(after, lo, hi) { insert_sorted(prev, after) } else { prev };
        lemma_insert_sorted_sorted(s1, a.wrapping_add(branch_disp26(raw)));
    }
}

/// The size a sweep gives the function at `starts[k]`.
pub open spec fn sweep_size(starts: Seq<u32>, hi: u32, k: int) -> u32 {
    (if k + 1 < starts.len() { starts[k + 1] } else { hi }).wrapping_sub(starts[k])
}

proof fn lemma_sweep_spans_shape(starts: Seq<u32>, hi: u32, max_funcs: nat, i: nat)
    requires
        strictly_sorted(starts),
        i <= starts.len(),
    ensures
        ({
            let sp = sweep_spans(starts, hi, max_funcs, i);
            &&& sp.len() <= i
            &&& sp.len() < i ==> (sp.len() >= max_funcs || (i == starts.len() && sp.len() + 1 == i))
            &&& forall|k: int| 0 <= k < sp.len() ==> #[trigger] sp[k] == (starts[k], sweep_size(starts, hi, k)) && sp[k].1 > 0
        }),
    decreases i,
{
    if i > 0 {
        lemma_sweep_spans_shape(starts, hi, max_funcs, (i - 1) as nat);
        let k = i - 1;
        if k + 1 < starts.len() {
            assert(starts[k] < starts[k + 1]);
            assert(sweep_size(starts, hi, k as int) == starts[k + 1] - starts[k]);
        }
    }
}

/// A sweep's functions start at strictly increasing addresses, none is
/// empty, and each ends exactly where the next one starts.
pub proof fn lemma_sweep_functions_tile(insts: Seq<DecodedInstruction>, entry: u32, max_funcs: nat, max_instrs: nat)
    ensures
        ({
            let sp = naive_spans(insts, entry, max_funcs, max_instrs);
            &&& forall|k: int| 0 <= k < sp.len() ==> #[trigger] sp[k].1 > 0
            &&& forall|k: int| 0 <= k && k + 1 < sp.len() ==> #[trigger] sp[k].0 < sp[k + 1].0 && sp[k].0 + sp[k].1 == sp[k + 1].0
        }),
{
    let sc = capped(from_entry(insts, entry), max_instrs);
    if sc.len() > 0 {
        let lo = sc[0].0;
        let hi = sc.last().0.wrapping_add(4);
        let starts = sweep_leaders(sc, lo, hi, sc.len());
        lemma_sweep_leaders_sorted(sc, lo, hi, sc.len());
        lemma_sweep_spans_shape(starts, hi, max_funcs, starts.len());
        let sp = sweep_spans(starts, hi, max_funcs, starts.len());
        assert forall|k: int| 0 <= k && k + 1 < sp.len() implies #[trigger] sp[k].0 < sp[k + 1].0 && sp[k].0 + sp[k].1 == sp[k + 1].0 by {
            assert(sp[k] == (starts[k], sweep_size(starts, hi, k)));
            assert(sp[k + 1] == (starts[k + 1], sweep_size(starts, hi, k + 1)));
            assert(starts[k] < starts[k + 1]);
        }
        assert forall|k: int| 0 <= k < sp.len() implies #[trigger] sp[k].1 > 0 by {
            assert(sp[k] == (starts[k], sweep_size(starts, hi, k)) && sp[k].1 > 0);
        }
    }
}

proof fn lemma_add_symbol_sorted(s: Seq<(u32, Seq<char>)>, a: u32, name: Seq<char>)
    requires
        strictly_sorted(keys_of(s)),
    ensures
        keys_of(add_symbol(s, a, name)) == insert_sorted(keys_of(s), a),
        strictly_sorted(keys_of(add_symbol(s, a, name))),
{
    lemma_insert_sorted_sorted(keys_of(s), a);
    if !keys_of(s).contains(a) {
        let p = count_lt(keys_of(s), a) as int;
        crate::codegen::spec::lemma_count_lt_position(keys_of(s), a);
        assert(keys_of(s.insert(p, (a, name))) =~= keys_of(s).insert(p, a));
    }
}

proof fn lemma_symbol_lines_sorted(lines: Seq<Seq<char>>, addrs: Set<u32>)
    ensures
        symbol_lines(lines, addrs) matches Ok(st) ==> strictly_sorted(keys_of(st)),
    decreases lines.len(),
{
    if lines.len() > 0 {
        lemma_symbol_lines_sorted(lines.drop_last(), addrs);
        match symbol_lines(lines.drop_last(), addrs) {
            Ok(acc) => match symbol_entry(lines.last()) {
                Some(Some((a, name))) => {
                    lemma_add_symbol_sorted(acc, a, name);
                },
                _ => {},
            },
            Err(_) => {},
        }
    } else {
        assert(keys_of(Seq::<(u32, Seq<char>)>::empty()) =~= Seq::<u32>::empty());
    }
}

proof fn lemma_add_spans_sorted(acc: Seq<(u32, Seq<char>)>, spans: Seq<(u32, u32)>, n: nat)
    requires
        strictly_sorted(keys_of(acc)),
        n <= spans.len(),
    ensures
        strictly_sorted(keys_of(add_spans(acc, spans, n))),
    decreases n,
{
    if n > 0 {
        lemma_add_spans_sorted(acc, spans, (n - 1) as nat);
        lemma_add_symbol_sorted(add_spans(acc, spans, (n - 1) as nat), spans[n - 1].0, sub_name(spans[n - 1].0));
    }
}

/// Symbol-map discovery lists its functions by strictly increasing address:
/// every address once, in order.
pub proof fn lemma_symbol_starts_sorted(text: Seq<char>, entry: u32, insts: Seq<DecodedInstruction>, limits: DiscoveryLimits)
    ensures
        symbol_starts(text, entry, insts, limits) matches Ok(st) ==> strictly_sorted(keys_of(st)),
{
    let addrs = instruction_addresses(insts);
    lemma_symbol_lines_sorted(split_lines(text), addrs);
    match symbol_lines(split_lines(text), addrs) {
        Ok(acc) => {
            let spans = naive_spans(insts, entry, limits.max_funcs as nat, limits.max_instrs as nat);
            lemma_add_spans_sorted(acc, spans, spans.len());
            lemma_add_symbol_sorted(add_spans(acc, spans, spans.len()), entry, "entry"@);
        },
        Err(_) => {},
    }
}

} // verus!
