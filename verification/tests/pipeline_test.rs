//! Decoding, function discovery and module generation.

use gcrecomp::analysis::FunctionInfo;
use gcrecomp::decoder::{DecodedInstruction, Instruction};
use gcrecomp::dol::{DolFile, DolSection};
use gcrecomp::pipeline::{DiscoveryLimits, PipelineContext, PipelineError, RecompilationPipeline};

const NOP: u32 = 0x3800_0000;
const BLR: u32 = 0x4E80_0020;

fn instrs(words: &[u32], base: u32) -> Vec<DecodedInstruction> {
    words
        .iter()
        .enumerate()
        .map(|(i, &w)| Instruction::decode(w, base + (i as u32) * 4).unwrap())
        .collect()
}

fn be_words(words: &[u32]) -> Vec<u8> {
    let mut out = Vec::new();
    for w in words {
        out.extend_from_slice(&w.to_be_bytes());
    }
    out
}

fn dol_with_text(address: u32, words: &[u32], entry: u32) -> DolFile {
    DolFile {
        path: "game.dol".to_string(),
        text_sections: vec![DolSection { address, data: be_words(words) }],
        data_sections: vec![DolSection { address: 0x8030_0000, data: vec![1, 2, 3] }],
        entry_point: entry,
        bss_address: 0,
        bss_size: 0,
    }
}

#[test]
fn naive_discovery_splits_on_blr_from_entry() {
    // 0x100..: [pre-entry junk] | f1: nop,nop,blr | f2: nop,blr
    let words = [NOP, NOP, /* entry@0x108 */ NOP, NOP, BLR, NOP, BLR];
    let is = instrs(&words, 0x100);
    let entry = 0x108;

    let a = RecompilationPipeline::naive_function_discovery(entry, &is);

    assert_eq!(a.functions.len(), 2, "two blr-delimited functions");
    assert_eq!(a.functions[0].address, 0x108, "first function starts at entry");
    assert_eq!(a.functions[0].size, 12, "f1 = 3 instrs (nop,nop,blr)");
    assert_eq!(a.functions[1].address, 0x114);
    assert_eq!(a.functions[1].size, 8, "f2 = 2 instrs (nop,blr)");
}

#[test]
fn naive_discovery_closes_trailing_function_without_blr() {
    let is = instrs(&[NOP, NOP, NOP], 0x200);
    let a = RecompilationPipeline::naive_function_discovery(0x200, &is);
    assert_eq!(a.functions.len(), 1);
    assert_eq!(a.functions[0].size, 12, "no blr -> one function spanning all 3");
}

#[test]
fn naive_discovery_names_functions_and_follows_calls() {
    // bl +8 at 0x300 calls 0x308.
    let bl_plus_8 = 0x4800_0009;
    let is = instrs(&[bl_plus_8, BLR, NOP, BLR], 0x300);
    let a = RecompilationPipeline::naive_function_discovery(0x300, &is);
    let starts: Vec<u32> = a.functions.iter().map(|f| f.address).collect();
    assert_eq!(starts, vec![0x300, 0x308]);
    assert_eq!(a.functions[0].name, "sub_00000300");
    assert_eq!(a.functions[0].calling_convention, "default");
    assert_eq!(a.functions[1].size, 8);
}

#[test]
fn naive_discovery_respects_caps() {
    let is = instrs(&[NOP, BLR, NOP, BLR, NOP, BLR], 0x400);
    let limits = DiscoveryLimits { max_funcs: 2, max_instrs: 4 };
    let a = RecompilationPipeline::naive_function_discovery_bounded(0x400, &is, limits);
    assert_eq!(a.functions.len(), 2);
    assert_eq!(a.functions[1].address, 0x408);
    assert_eq!(a.functions[1].size, 8);
    let empty = RecompilationPipeline::naive_function_discovery(0x1000, &is);
    assert!(empty.functions.is_empty());
}

#[test]
fn discovery_limits_parse_settings() {
    let l = DiscoveryLimits::from_settings(Some("64"), Some("+8192"));
    assert_eq!((l.max_funcs, l.max_instrs), (64, 8192));
    let d = DiscoveryLimits::from_settings(Some("lots"), None);
    assert_eq!((d.max_funcs, d.max_instrs), (2_000_000, 20_000_000));
}

#[test]
fn symbol_map_names_functions_and_keeps_sweep_starts() {
    let is = instrs(&[NOP, BLR, NOP, BLR, NOP, BLR], 0x500);
    let map = "# comment\n// also a comment\nmain = 0x504 ; entry of main\nhelper=508\nfar_away = 0x9000\nno equals sign\n";
    let a = RecompilationPipeline::symbol_map_function_discovery(map, 0x500, &is, DiscoveryLimits::default()).unwrap();
    let got: Vec<(u32, String, u32)> = a.functions.iter().map(|f| (f.address, f.name.clone(), f.size)).collect();
    assert_eq!(
        got,
        vec![
            (0x500, "sub_00000500".to_string(), 4),
            (0x504, "main".to_string(), 4),
            (0x508, "helper".to_string(), 8),
            (0x510, "sub_00000510".to_string(), 8),
        ]
    );
}

#[test]
fn symbol_map_reports_first_invalid_line() {
    let is = instrs(&[NOP, BLR], 0x600);
    let map = "ok = 0x600\n\nbad = 0xZZ\nworse = nothing\n";
    let r = RecompilationPipeline::symbol_map_function_discovery(map, 0x600, &is, DiscoveryLimits::default());
    assert!(matches!(r, Err(PipelineError::InvalidAddress { line: 3 })));
}

#[test]
fn decode_skips_undecodable_words_and_counts_addresses() {
    let dol = dol_with_text(0x8000_3100, &[NOP, 0x0000_0000, BLR], 0x8000_3100);
    let is = RecompilationPipeline::decode_all_instructions(&dol).unwrap();
    let addrs: Vec<u32> = is.iter().map(|d| d.address).collect();
    assert_eq!(addrs, vec![0x8000_3100, 0x8000_3108]);
    assert_eq!(is[1].raw, BLR);
}

#[test]
fn function_mapping_selects_its_range() {
    let is = instrs(&[NOP, NOP, BLR, NOP], 0x700);
    let a = RecompilationPipeline::naive_function_discovery(0x700, &is);
    let f0 = RecompilationPipeline::map_instructions_to_function(&a.functions[0], &is);
    assert_eq!(f0.len(), 3);
    assert_eq!(f0[2].address, 0x708);
}

#[test]
fn function_range_may_reach_the_top_of_memory() {
    let is = instrs(&[NOP], 0xFFFF_FFFC);
    let f = FunctionInfo {
        address: 0xFFFF_FFFC,
        name: "top".to_string(),
        size: 8,
        calling_convention: String::new(),
        parameters: vec![],
        return_type: None,
        local_variables: vec![],
        basic_blocks: vec![],
    };
    let got = RecompilationPipeline::map_instructions_to_function(&f, &is);
    assert_eq!(got.len(), 1);
    assert_eq!(got[0].address, 0xFFFF_FFFC);
}

#[test]
fn memory_image_lists_nonempty_sections() {
    let mut dol = dol_with_text(0x8000_0000, &[BLR], 0x8000_0000);
    dol.data_sections.push(DolSection { address: 0x8040_0000, data: vec![] });
    let image = RecompilationPipeline::memory_image(&dol);
    let mut want = Vec::new();
    want.extend_from_slice(&0x8000_0000u32.to_le_bytes());
    want.extend_from_slice(&4u32.to_le_bytes());
    want.extend_from_slice(&BLR.to_be_bytes());
    want.extend_from_slice(&0x8030_0000u32.to_le_bytes());
    want.extend_from_slice(&3u32.to_le_bytes());
    want.extend_from_slice(&[1, 2, 3]);
    assert_eq!(image, want);
}

#[test]
fn recompile_generates_functions_dispatcher_and_loader() {
    let dol = dol_with_text(0x8000_3100, &[NOP, BLR, NOP, BLR], 0x8000_3100);
    let p = RecompilationPipeline::recompile(&dol, DiscoveryLimits::default()).unwrap();
    assert!(p.code.starts_with("//! Recompiled GameCube game functions\n"));
    assert!(p.code.contains("pub const ENTRY_POINT: u32 = 0x80003100;"));
    assert!(p.code.contains("pub fn func_0x80003100(ctx: &mut CpuContext, memory: &mut MemoryManager) -> Result<Option<u32>>"));
    assert!(p.code.contains("        0x80003108u32 => func_0x80003108(ctx, memory),\n"));
    assert!(p.code.contains("        _ => Ok(None),\n"));
    assert!(p.code.ends_with("pub fn load_image(memory: &mut MemoryManager) {\n    let img = GAME_IMAGE;\n    let mut p = 0usize;\n    while p + 8 <= img.len() {\n        let addr = u32::from_le_bytes([img[p], img[p + 1], img[p + 2], img[p + 3]]);\n        let len = u32::from_le_bytes([img[p + 4], img[p + 5], img[p + 6], img[p + 7]]) as usize;\n        p += 8;\n        if p + len > img.len() { break; }\n        let _ = memory.load_section(addr, &img[p..p + len]);\n        p += len;\n    }\n}\n"));
    assert_eq!(p.stats.total_functions, 2);
    assert_eq!(p.stats.successful_functions, 2);
    assert_eq!(p.stats.failed_functions, 0);
    assert_eq!(p.stats.total_instructions, 4);
    assert_eq!(p.image, RecompilationPipeline::memory_image(&dol));
}

#[test]
fn recompile_with_symbol_map_uses_names() {
    let dol = dol_with_text(0x8000_3100, &[NOP, BLR, NOP, BLR], 0x8000_3100);
    let p = RecompilationPipeline::recompile_with_symbol_map(&dol, Some("Game::run = 0x80003108\n"), DiscoveryLimits::default()).unwrap();
    assert!(p.code.contains("        0x80003108u32 => Gamerun_80003108(ctx, memory),\n"));
    assert!(p.code.contains("        0x80003100u32 => func_0x80003100(ctx, memory),\n"));
    let bad = RecompilationPipeline::recompile_with_symbol_map(&dol, Some("x = 0xG\n"), DiscoveryLimits::default());
    assert!(matches!(bad, Err(PipelineError::InvalidAddress { line: 1 })));
}

#[test]
fn staged_pipeline_checks_its_inputs() {
    let mut ctx = PipelineContext::new();
    assert_eq!(RecompilationPipeline::stage_decode(&mut ctx), Err(PipelineError::NoDolLoaded));
    assert_eq!(RecompilationPipeline::stage_generate_code(&mut ctx), Err(PipelineError::NoAnalysis));
    assert_eq!(RecompilationPipeline::stage_infer_types(&mut ctx), Ok(()));
    ctx.dol_file = Some(dol_with_text(0x8000_3100, &[NOP, BLR], 0x8000_3100));
    assert_eq!(
        RecompilationPipeline::stage_analyze(&mut ctx, Err("tool missing".to_string())),
        Err(PipelineError::AnalysisFailed("tool missing".to_string()))
    );
    let is = RecompilationPipeline::decode_all_instructions(ctx.dol_file.as_ref().unwrap()).unwrap();
    let analysis = RecompilationPipeline::naive_function_discovery(0x8000_3100, &is);
    assert_eq!(RecompilationPipeline::stage_analyze(&mut ctx, Ok(analysis)), Ok(()));
    assert_eq!(RecompilationPipeline::stage_generate_code(&mut ctx), Err(PipelineError::NoInstructions));
    assert_eq!(RecompilationPipeline::stage_decode(&mut ctx), Ok(()));
    assert_eq!(ctx.stats.total_instructions, 2);
    assert_eq!(RecompilationPipeline::stage_generate_code(&mut ctx), Ok(()));
    let code = ctx.rust_code.as_ref().unwrap();
    assert!(code.starts_with("//! Recompiled GameCube game functions\n//! Generated by GCRecomp\n\nuse "));
    assert!(code.ends_with("        0x80003100u32 => func_0x80003100(ctx, memory),\n        _ => Ok(None),\n    }\n}\n"));
    assert_eq!((ctx.stats.total_functions, ctx.stats.successful_functions, ctx.stats.failed_functions), (1, 1, 0));
}

#[test]
fn analyze_reports_sweep_functions() {
    let dol = dol_with_text(0x8000_3100, &[NOP, BLR, NOP, BLR], 0x8000_3100);
    let (is, a) = RecompilationPipeline::analyze(&dol, DiscoveryLimits::default()).unwrap();
    assert_eq!(is.len(), 4);
    assert_eq!(a.functions.len(), 2);
    let (_, b) = RecompilationPipeline::analyze_with_symbol_map(&dol, Some("start=0x80003100"), DiscoveryLimits::default()).unwrap();
    assert_eq!(b.functions[0].name, "start");
}

#[test]
fn dol_parse_reads_sections_and_entry() {
    let mut bytes = vec![0u8; 0x100];
    let put = |b: &mut Vec<u8>, at: usize, v: u32| b[at..at + 4].copy_from_slice(&v.to_be_bytes());
    put(&mut bytes, 0x00, 0x100); // text 0 offset
    put(&mut bytes, 0x48, 0x8000_3100); // text 0 address
    put(&mut bytes, 0x90, 8); // text 0 size
    put(&mut bytes, 0xe0, 0x8000_3100); // entry
    put(&mut bytes, 0xd8, 0x8040_0000);
    put(&mut bytes, 0xdc, 0x20);
    bytes.extend_from_slice(&be_words(&[NOP, BLR]));
    let dol = DolFile::parse(&bytes, "x.dol").unwrap();
    assert_eq!(dol.text_sections.len(), 1);
    assert_eq!(dol.text_sections[0].address, 0x8000_3100);
    assert_eq!(dol.text_sections[0].data, be_words(&[NOP, BLR]));
    assert!(dol.data_sections.is_empty());
    assert_eq!((dol.entry_point, dol.bss_address, dol.bss_size), (0x8000_3100, 0x8040_0000, 0x20));
    assert_eq!(dol.path, "x.dol");
    put(&mut bytes, 0xac, 4); // data 0 size with offset 0 past nothing: fits
    put(&mut bytes, 0x1c, 0x200); // data 0 offset past the end
    assert_eq!(DolFile::parse(&bytes, "x.dol").err(), Some(gcrecomp::dol::DolError::SectionOutOfBounds { slot: 7 }));
    assert_eq!(DolFile::parse(&bytes[..10], "x.dol").err(), Some(gcrecomp::dol::DolError::TooSmall));
}
