//! OS services seen by recompiled code.

use gcrecomp::context::CpuContext;
use gcrecomp::memory::MemoryManager;
use gcrecomp::os::{
    classify_sdk_call, dispatch_sdk_call, os_alloc_from_arena_hi, os_alloc_from_arena_lo, os_disable_interrupts, os_get_arena_hi,
    os_get_arena_lo, os_init, os_report, os_restore_interrupts, os_set_arena_lo, read_c_string, tick_since, ticks_from_nanos, ticks_since, time_words, OsState, SdkCall, SdkDispatch,
    ARENA_HI_DEFAULT, ARENA_LO_DEFAULT, CONSOLE_RETAIL_HW2,
};

#[test]
fn arena_allocations_are_aligned_and_move_the_cursors() {
    let mut os = OsState::new();
    os_set_arena_lo(&mut os, 0x8040_0001);
    let p = os_alloc_from_arena_lo(&mut os, 0x10, 0x20);
    assert_eq!(p, 0x8040_0020);
    assert_eq!(os_get_arena_lo(&os), 0x8040_0040);
    let q = os_alloc_from_arena_hi(&mut os, 0x10, 0x20);
    assert_eq!(q, ARENA_HI_DEFAULT - 0x20);
    assert_eq!(os_get_arena_hi(&os), q);
}

#[test]
fn interrupts_restore_to_their_previous_state() {
    let mut os = OsState::new();
    os.interrupts.set_master_enable(true);
    let prev = os_disable_interrupts(&mut os);
    assert_eq!(prev, 1);
    assert!(!os.interrupts.enabled());
    os_restore_interrupts(&mut os, prev);
    assert!(os.interrupts.enabled());
}

#[test]
fn os_init_writes_the_globals() {
    let mut os = OsState::new();
    let mut mem = MemoryManager::new();
    os_init(&mut os, &mut mem);
    assert!(os.initialized);
    assert_eq!(mem.read_u32(0x8000_00F8).unwrap(), 162_000_000);
    assert_eq!(mem.read_u32(0x8000_0028).unwrap(), 0x0180_0000);
    assert_eq!(mem.read_u32(0x8000_00CC).unwrap(), CONSOLE_RETAIL_HW2);
    assert_eq!((os_get_arena_lo(&os), os_get_arena_hi(&os)), (ARENA_LO_DEFAULT, ARENA_HI_DEFAULT));
}

#[test]
fn c_strings_and_reports() {
    let mut mem = MemoryManager::new();
    mem.write_bytes(0x8000_3000, b"hello\0world").unwrap();
    assert_eq!(read_c_string(&mem, 0x8000_3000), "hello");
    assert_eq!(os_report("hi"), "OSReport: hi");
}

#[test]
fn sdk_calls_dispatch_by_name() {
    assert_eq!(classify_sdk_call("DVDReadPrio"), SdkCall::DvdRead);
    assert_eq!(classify_sdk_call("memcpy"), SdkCall::Unknown);
    let mut os = OsState::new();
    let mut mem = MemoryManager::new();
    let mut ctx = CpuContext::new();
    assert_eq!(dispatch_sdk_call("OSGetArenaLo", &mut ctx, &mut mem, &mut os), SdkDispatch::Handled);
    assert_eq!(ctx.get_register(3), ARENA_LO_DEFAULT);
    assert_eq!(dispatch_sdk_call("memcpy", &mut ctx, &mut mem, &mut os), SdkDispatch::NotHandled);
    mem.write_bytes(0x8000_3000, b"boom\0").unwrap();
    ctx.set_register(3, 0x8000_3000);
    assert_eq!(dispatch_sdk_call("OSFatal", &mut ctx, &mut mem, &mut os), SdkDispatch::Fatal("boom".to_string()));
    // Without a DVD, DVDOpen reports failure in r3.
    ctx.set_register(3, 0x8000_4000);
    ctx.set_register(4, 0x8000_3000);
    assert_eq!(dispatch_sdk_call("DVDOpen", &mut ctx, &mut mem, &mut os), SdkDispatch::Handled);
    assert_eq!(ctx.get_register(3), 0);
}

#[test]
fn time_base_counts_at_40_5_mhz() {
    assert_eq!(ticks_since(2000), 81);
    assert_eq!(ticks_since(1_000_000_000), 40_500_000);
    assert_eq!(ticks_since(u128::MAX), ticks_from_nanos(u64::MAX));
}

#[test]
fn time_base_words() {
    assert_eq!(time_words(0x1_2345_6789), (1, 0x2345_6789));
    assert_eq!(tick_since(2000), 81);
    assert_eq!(tick_since(u128::MAX), (ticks_from_nanos(u64::MAX) % 0x1_0000_0000) as u32);
}

#[test]
fn dvd_read_without_disc_and_unknown_calls() {
    let mut ctx = CpuContext::new();
    let mut memory = MemoryManager::new();
    let mut os = OsState::new();
    ctx.set_register(3, 0x8000_1000);
    ctx.set_register(4, 0x8000_2000);
    ctx.set_register(5, 32);
    assert_eq!(dispatch_sdk_call("DVDRead", &mut ctx, &mut memory, &mut os), SdkDispatch::Handled);
    assert_eq!(ctx.get_register(3), 0xFFFF_FFFF);
    assert_eq!(memory.read_u32(0x8000_2000), Ok(0));
    ctx.lr = 0x8000_3000;
    assert_eq!(dispatch_sdk_call("NotAnSdkCall", &mut ctx, &mut memory, &mut os), SdkDispatch::NotHandled);
    assert_eq!(ctx.lr, 0x8000_3000);
    assert_eq!(ctx.get_register(3), 0xFFFF_FFFF);
}
